//! The texts of the licenses that the copyright file recognizes, by the
//! name of their file.

use vstd::prelude::*;
use vstd::string::*;

use crate::text::str_eq;

verus! {

/// The text of the `AGPL-3.0` license.
pub const AGPL_3_0_TEXT: &'static str = "This program is free software; you can redistribute it and/or modify it\nunder the terms of the GNU Affero General Public License as published by the Free\nSoftware Foundation; either version 3 of the License, or (at your\noption) any later version.\n\nThis program is distributed in the hope that it will be useful, but WITHOUT\nANY WARRANTY; without even the implied warranty of MERCHANTABILITY or\nFITNESS FOR A PARTICULAR PURPOSE. See the GNU Affero General Public License for more\ndetails.\n\nThe complete text of the GNU Affero General Public License version 3\ncan be found at <https://www.gnu.org/licenses/agpl-3.0.html>.";

/// The text of the `Apache-2.0` license.
pub const APACHE_2_0_TEXT: &'static str = "Licensed under the Apache License, Version 2.0 (the \"License\");\nyou may not use this file except in compliance with the License.\nYou may obtain a copy of the License at\n\nhttps://www.apache.org/licenses/LICENSE-2.0\n\nUnless required by applicable law or agreed to in writing, software\ndistributed under the License is distributed on an \"AS IS\" BASIS,\nWITHOUT WARRANTIES OR CONDITIONS OF ANY KIND, either express or implied.\nSee the License for the specific language governing permissions and\nlimitations under the License.\n\nOn Debian systems, the complete text of the Apache License, Version 2.0\ncan be found in \"/usr/share/common-licenses/Apache-2.0\".";

/// The text of the `BSD-2-Clause` license.
pub const BSD_2_CLAUSE_TEXT: &'static str = "Redistribution and use in source and binary forms, with or without\nmodification, are permitted provided that the following conditions are met:\n\n1. Redistributions of source code must retain the above copyright notice,\n   this list of conditions and the following disclaimer.\n\n2. Redistributions in binary form must reproduce the above copyright notice,\n   this list of conditions and the following disclaimer in the documentation\n   and/or other materials provided with the distribution.\n\nTHIS SOFTWARE IS PROVIDED BY THE COPYRIGHT HOLDERS AND CONTRIBUTORS \"AS IS\"\nAND ANY EXPRESS OR IMPLIED WARRANTIES, INCLUDING, BUT NOT LIMITED TO, THE\nIMPLIED WARRANTIES OF MERCHANTABILITY AND FITNESS FOR A PARTICULAR PURPOSE\nARE DISCLAIMED. IN NO EVENT SHALL THE COPYRIGHT HOLDER OR CONTRIBUTORS BE\nLIABLE FOR ANY DIRECT, INDIRECT, INCIDENTAL, SPECIAL, EXEMPLARY, OR\nCONSEQUENTIAL DAMAGES (INCLUDING, BUT NOT LIMITED TO, PROCUREMENT OF\nSUBSTITUTE GOODS OR SERVICES; LOSS OF USE, DATA, OR PROFITS; OR BUSINESS\nINTERRUPTION) HOWEVER CAUSED AND ON ANY THEORY OF LIABILITY, WHETHER IN\nCONTRACT, STRICT LIABILITY, OR TORT (INCLUDING NEGLIGENCE OR OTHERWISE)\nARISING IN ANY WAY OUT OF THE USE OF THIS SOFTWARE, EVEN IF ADVISED OF THE\nPOSSIBILITY OF SUCH DAMAGE.";

/// The text of the `BSD-3-Clause` license.
pub const BSD_3_CLAUSE_TEXT: &'static str = "Redistribution and use in source and binary forms, with or without\nmodification, are permitted provided that the following conditions are met:\n\n1. Redistributions of source code must retain the above copyright notice,\n   this list of conditions and the following disclaimer.\n\n2. Redistributions in binary form must reproduce the above copyright notice,\n   this list of conditions and the following disclaimer in the documentation\n   and/or other materials provided with the distribution.\n\n3. Neither the name of the copyright holder nor the names of its\n   contributors may be used to endorse or promote products derived from\n   this software without specific prior written permission.\n\nTHIS SOFTWARE IS PROVIDED BY THE COPYRIGHT HOLDERS AND CONTRIBUTORS \"AS IS\"\nAND ANY EXPRESS OR IMPLIED WARRANTIES, INCLUDING, BUT NOT LIMITED TO, THE\nIMPLIED WARRANTIES OF MERCHANTABILITY AND FITNESS FOR A PARTICULAR PURPOSE\nARE DISCLAIMED. IN NO EVENT SHALL THE COPYRIGHT HOLDER OR CONTRIBUTORS BE\nLIABLE FOR ANY DIRECT, INDIRECT, INCIDENTAL, SPECIAL, EXEMPLARY, OR\nCONSEQUENTIAL DAMAGES (INCLUDING, BUT NOT LIMITED TO, PROCUREMENT OF\nSUBSTITUTE GOODS OR SERVICES; LOSS OF USE, DATA, OR PROFITS; OR BUSINESS\nINTERRUPTION) HOWEVER CAUSED AND ON ANY THEORY OF LIABILITY, WHETHER IN\nCONTRACT, STRICT LIABILITY, OR TORT (INCLUDING NEGLIGENCE OR OTHERWISE)\nARISING IN ANY WAY OUT OF THE USE OF THIS SOFTWARE, EVEN IF ADVISED OF THE\nPOSSIBILITY OF SUCH DAMAGE.";

/// The text of the `CC0-1.0` license.
pub const CC0_1_0_TEXT: &'static str = "To the extent possible under law, the author(s) have dedicated all\ncopyright and related and neighboring rights to this software to the\npublic domain worldwide. This software is distributed without any\nwarranty.\n\nOn Debian systems, the complete text of the CC0 1.0 Universal Public\nDomain Dedication can be found in \"/usr/share/common-licenses/CC0-1.0\".";

/// The text of the `GPL-2.0` license.
pub const GPL_2_0_TEXT: &'static str = "This program is free software; you can redistribute it and/or modify it\nunder the terms of the GNU General Public License as published by the Free\nSoftware Foundation; either version 2 of the License, or (at your\noption) any later version.\n\nThis program is distributed in the hope that it will be useful, but WITHOUT\nANY WARRANTY; without even the implied warranty of MERCHANTABILITY or\nFITNESS FOR A PARTICULAR PURPOSE. See the GNU General Public License for more\ndetails.\n\nOn Debian systems, the complete text of the GNU General Public License\nversion 2 can be found in \"/usr/share/common-licenses/GPL-2\".";

/// The text of the `GPL-3.0` license.
pub const GPL_3_0_TEXT: &'static str = "This program is free software; you can redistribute it and/or modify it\nunder the terms of the GNU General Public License as published by the Free\nSoftware Foundation; either version 3 of the License, or (at your\noption) any later version.\n\nThis program is distributed in the hope that it will be useful, but WITHOUT\nANY WARRANTY; without even the implied warranty of MERCHANTABILITY or\nFITNESS FOR A PARTICULAR PURPOSE. See the GNU General Public License for more\ndetails.\n\nOn Debian systems, the complete text of the GNU General Public License\nversion 3 can be found in \"/usr/share/common-licenses/GPL-3\".";

/// The text of the `ISC` license.
pub const ISC_TEXT: &'static str = "Permission to use, copy, modify, and/or distribute this software for any\npurpose with or without fee is hereby granted, provided that the above\ncopyright notice and this permission notice appear in all copies.\n\nTHE SOFTWARE IS PROVIDED \"AS IS\" AND THE AUTHOR DISCLAIMS ALL WARRANTIES\nWITH REGARD TO THIS SOFTWARE INCLUDING ALL IMPLIED WARRANTIES OF\nMERCHANTABILITY AND FITNESS. IN NO EVENT SHALL THE AUTHOR BE LIABLE FOR\nANY SPECIAL, DIRECT, INDIRECT, OR CONSEQUENTIAL DAMAGES OR ANY DAMAGES\nWHATSOEVER RESULTING FROM LOSS OF USE, DATA OR PROFITS, WHETHER IN AN\nACTION OF CONTRACT, NEGLIGENCE OR OTHER TORTIOUS ACTION, ARISING OUT OF\nOR IN CONNECTION WITH THE USE OR PERFORMANCE OF THIS SOFTWARE.";

/// The text of the `LGPL-2.0` license.
pub const LGPL_2_0_TEXT: &'static str = "This library is free software; you can redistribute it and/or modify it\nunder the terms of the GNU Library General Public License as published by the Free\nSoftware Foundation; either version 2 of the License, or (at your\noption) any later version.\n\nThis library is distributed in the hope that it will be useful, but WITHOUT\nANY WARRANTY; without even the implied warranty of MERCHANTABILITY or\nFITNESS FOR A PARTICULAR PURPOSE. See the GNU Library General Public License for more\ndetails.\n\nOn Debian systems, the complete text of the GNU Library General Public License\nversion 2 can be found in \"/usr/share/common-licenses/LGPL-2\".";

/// The text of the `LGPL-2.1` license.
pub const LGPL_2_1_TEXT: &'static str = "This library is free software; you can redistribute it and/or modify it\nunder the terms of the GNU Lesser General Public License as published by the Free\nSoftware Foundation; either version 2.1 of the License, or (at your\noption) any later version.\n\nThis library is distributed in the hope that it will be useful, but WITHOUT\nANY WARRANTY; without even the implied warranty of MERCHANTABILITY or\nFITNESS FOR A PARTICULAR PURPOSE. See the GNU Lesser General Public License for more\ndetails.\n\nOn Debian systems, the complete text of the GNU Lesser General Public License\nversion 2.1 can be found in \"/usr/share/common-licenses/LGPL-2.1\".";

/// The text of the `LGPL-3.0` license.
pub const LGPL_3_0_TEXT: &'static str = "This library is free software; you can redistribute it and/or modify it\nunder the terms of the GNU Lesser General Public License as published by the Free\nSoftware Foundation; either version 3 of the License, or (at your\noption) any later version.\n\nThis library is distributed in the hope that it will be useful, but WITHOUT\nANY WARRANTY; without even the implied warranty of MERCHANTABILITY or\nFITNESS FOR A PARTICULAR PURPOSE. See the GNU Lesser General Public License for more\ndetails.\n\nOn Debian systems, the complete text of the GNU Lesser General Public License\nversion 3 can be found in \"/usr/share/common-licenses/LGPL-3\".";

/// The text of the `MIT` license.
pub const MIT_TEXT: &'static str = "Permission is hereby granted, free of charge, to any person obtaining a copy\nof this software and associated documentation files (the \"Software\"), to deal\nin the Software without restriction, including without limitation the rights\nto use, copy, modify, merge, publish, distribute, sublicense, and/or sell\ncopies of the Software, and to permit persons to whom the Software is\nfurnished to do so, subject to the following conditions:\n\nThe above copyright notice and this permission notice shall be included in all\ncopies or substantial portions of the Software.\n\nTHE SOFTWARE IS PROVIDED \"AS IS\", WITHOUT WARRANTY OF ANY KIND, EXPRESS OR\nIMPLIED, INCLUDING BUT NOT LIMITED TO THE WARRANTIES OF MERCHANTABILITY,\nFITNESS FOR A PARTICULAR PURPOSE AND NONINFRINGEMENT. IN NO EVENT SHALL THE\nAUTHORS OR COPYRIGHT HOLDERS BE LIABLE FOR ANY CLAIM, DAMAGES OR OTHER\nLIABILITY, WHETHER IN AN ACTION OF CONTRACT, TORT OR OTHERWISE, ARISING FROM,\nOUT OF OR IN CONNECTION WITH THE SOFTWARE OR THE USE OR OTHER DEALINGS IN THE\nSOFTWARE.";

/// The text of the `MITNFA` license.
pub const MITNFA_TEXT: &'static str = "Permission is hereby granted, free of charge, to any person obtaining a copy\nof this software and associated documentation files (the \"Software\"), to deal\nin the Software without restriction, including without limitation the rights\nto use, copy, modify, merge, publish, distribute, sublicense, and/or sell\ncopies of the Software, and to permit persons to whom the Software is\nfurnished to do so, subject to the following conditions:\n\nThe above copyright notice and this permission notice shall be included in all\ncopies or substantial portions of the Software.\n\nDistributions of all or part of the Software intended to be used by the\nrecipients as they would use the unmodified Software, containing\nmodifications that substantially alter, remove, or disable functionality of\nthe Software, outside of the documented configuration mechanisms provided by\nthe Software, shall be modified such that the Original Author's bug reporting\nemail addresses and urls are either replaced with the contact information of\nthe parties responsible for the changes, or removed entirely.\n\nTHE SOFTWARE IS PROVIDED \"AS IS\", WITHOUT WARRANTY OF ANY KIND, EXPRESS OR\nIMPLIED, INCLUDING BUT NOT LIMITED TO THE WARRANTIES OF MERCHANTABILITY,\nFITNESS FOR A PARTICULAR PURPOSE AND NONINFRINGEMENT. IN NO EVENT SHALL THE\nAUTHORS OR COPYRIGHT HOLDERS BE LIABLE FOR ANY CLAIM, DAMAGES OR OTHER\nLIABILITY, WHETHER IN AN ACTION OF CONTRACT, TORT OR OTHERWISE, ARISING FROM,\nOUT OF OR IN CONNECTION WITH THE SOFTWARE OR THE USE OR OTHER DEALINGS IN THE\nSOFTWARE.";

/// The text of the `MPL-1.1` license.
pub const MPL_1_1_TEXT: &'static str = "The contents of this file are subject to the Mozilla Public License\nVersion 1.1 (the \"License\"); you may not use this file except in\ncompliance with the License. You may obtain a copy of the License at\nhttps://www.mozilla.org/MPL/\n\nSoftware distributed under the License is distributed on an \"AS IS\"\nbasis, WITHOUT WARRANTY OF ANY KIND, either express or implied. See the\nLicense for the specific language governing rights and limitations\nunder the License.\n\nOn Debian systems, the complete text of the Mozilla Public License\nVersion 1.1 can be found in \"/usr/share/common-licenses/MPL-1.1\".";

/// The text of the `MPL-2.0` license.
pub const MPL_2_0_TEXT: &'static str = "This Source Code Form is subject to the terms of the Mozilla Public\nLicense, v. 2.0. If a copy of the MPL was not distributed with this\nfile, You can obtain one at https://mozilla.org/MPL/2.0/.\n\nOn Debian systems, the complete text of the Mozilla Public License\nVersion 2.0 can be found in \"/usr/share/common-licenses/MPL-2.0\".";

/// The text of the `Unlicense` license.
pub const UNLICENSE_TEXT: &'static str = "This is free and unencumbered software released into the public domain.\n\nAnyone is free to copy, modify, publish, use, compile, sell, or\ndistribute this software, either in source code form or as a compiled\nbinary, for any purpose, commercial or non-commercial, and by any\nmeans.\n\nIn jurisdictions that recognize copyright laws, the author or authors\nof this software dedicate any and all copyright interest in the\nsoftware to the public domain. We make this dedication for the benefit\nof the public at large and to the detriment of our heirs and\nsuccessors. We intend this dedication to be an overt act of\nrelinquishment in perpetuity of all present and future rights to this\nsoftware under copyright law.\n\nTHE SOFTWARE IS PROVIDED \"AS IS\", WITHOUT WARRANTY OF ANY KIND,\nEXPRESS OR IMPLIED, INCLUDING BUT NOT LIMITED TO THE WARRANTIES OF\nMERCHANTABILITY, FITNESS FOR A PARTICULAR PURPOSE AND NONINFRINGEMENT.\nIN NO EVENT SHALL THE AUTHORS BE LIABLE FOR ANY CLAIM, DAMAGES OR\nOTHER LIABILITY, WHETHER IN AN ACTION OF CONTRACT, TORT OR OTHERWISE,\nARISING FROM, OUT OF OR IN CONNECTION WITH THE SOFTWARE OR THE USE OR\nOTHER DEALINGS IN THE SOFTWARE.\n\nFor more information, please refer to <http://unlicense.org/>";

/// The text of the `Zlib` license.
pub const ZLIB_TEXT: &'static str = "This software is provided 'as-is', without any express or implied\nwarranty. In no event will the authors be held liable for any damages\narising from the use of this software.\n\nPermission is granted to anyone to use this software for any purpose,\nincluding commercial applications, and to alter it and redistribute it\nfreely, subject to the following restrictions:\n\n1. The origin of this software must not be misrepresented; you must not\n   claim that you wrote the original software. If you use this software\n   in a product, an acknowledgment in the product documentation would be\n   appreciated but is not required.\n2. Altered source versions must be plainly marked as such, and must not be\n   misrepresented as being the original software.\n3. This notice may not be removed or altered from any source distribution.";

/// The text of the license file `file`; empty for a file that is not one
/// of them.
pub open spec fn license_file_text(file: Seq<char>) -> Seq<char> {
    if file == "AGPL-3.0"@ {
        AGPL_3_0_TEXT@
    } else if file == "Apache-2.0"@ {
        APACHE_2_0_TEXT@
    } else if file == "BSD-2-Clause"@ {
        BSD_2_CLAUSE_TEXT@
    } else if file == "BSD-3-Clause"@ {
        BSD_3_CLAUSE_TEXT@
    } else if file == "CC0-1.0"@ {
        CC0_1_0_TEXT@
    } else if file == "GPL-2.0"@ {
        GPL_2_0_TEXT@
    } else if file == "GPL-3.0"@ {
        GPL_3_0_TEXT@
    } else if file == "ISC"@ {
        ISC_TEXT@
    } else if file == "LGPL-2.0"@ {
        LGPL_2_0_TEXT@
    } else if file == "LGPL-2.1"@ {
        LGPL_2_1_TEXT@
    } else if file == "LGPL-3.0"@ {
        LGPL_3_0_TEXT@
    } else if file == "MIT"@ {
        MIT_TEXT@
    } else if file == "MITNFA"@ {
        MITNFA_TEXT@
    } else if file == "MPL-1.1"@ {
        MPL_1_1_TEXT@
    } else if file == "MPL-2.0"@ {
        MPL_2_0_TEXT@
    } else if file == "Unlicense"@ {
        UNLICENSE_TEXT@
    } else if file == "Zlib"@ {
        ZLIB_TEXT@
    } else {
        Seq::empty()
    }
}

/// The text of the license file `file`.
pub fn license_file_contents(file: &str) -> (r: String)
    ensures
        r@ == license_file_text(file@),
{
    if str_eq(file, "AGPL-3.0") {
        String::from_str(AGPL_3_0_TEXT)
    } else if str_eq(file, "Apache-2.0") {
        String::from_str(APACHE_2_0_TEXT)
    } else if str_eq(file, "BSD-2-Clause") {
        String::from_str(BSD_2_CLAUSE_TEXT)
    } else if str_eq(file, "BSD-3-Clause") {
        String::from_str(BSD_3_CLAUSE_TEXT)
    } else if str_eq(file, "CC0-1.0") {
        String::from_str(CC0_1_0_TEXT)
    } else if str_eq(file, "GPL-2.0") {
        String::from_str(GPL_2_0_TEXT)
    } else if str_eq(file, "GPL-3.0") {
        String::from_str(GPL_3_0_TEXT)
    } else if str_eq(file, "ISC") {
        String::from_str(ISC_TEXT)
    } else if str_eq(file, "LGPL-2.0") {
        String::from_str(LGPL_2_0_TEXT)
    } else if str_eq(file, "LGPL-2.1") {
        String::from_str(LGPL_2_1_TEXT)
    } else if str_eq(file, "LGPL-3.0") {
        String::from_str(LGPL_3_0_TEXT)
    } else if str_eq(file, "MIT") {
        String::from_str(MIT_TEXT)
    } else if str_eq(file, "MITNFA") {
        String::from_str(MITNFA_TEXT)
    } else if str_eq(file, "MPL-1.1") {
        String::from_str(MPL_1_1_TEXT)
    } else if str_eq(file, "MPL-2.0") {
        String::from_str(MPL_2_0_TEXT)
    } else if str_eq(file, "Unlicense") {
        String::from_str(UNLICENSE_TEXT)
    } else if str_eq(file, "Zlib") {
        String::from_str(ZLIB_TEXT)
    } else {
        String::new()
    }
}

} // verus!
