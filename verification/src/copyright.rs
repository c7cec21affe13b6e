//! The machine-readable `debian/copyright` file: its paragraphs, the
//! recognition of license names, and the guess of copyright notices.

use chrono::Datelike;
use vstd::prelude::*;
use vstd::string::*;

use crate::config::{opt_view, RUST_MAINT};
use crate::license_texts::{license_file_contents, license_file_text};
use crate::pattern::{regex_capture, regex_split, regex_valid, RegexMatcher};
use crate::text::{
    ascii_lower, clone_strings, concat2, extend_strings, concat3, decimal_i32, fill, i32_to_string, lines, lines_spec,
    push_str, replace_char, replace_char_spec, replace_spec, replace_str, sort_dedup,
    str_eq, strictly_sorted, textwrap_fill, to_lowercase, lowercase, trim, trim_end,
    trim_end_matches, trim_end_matches_spec, trim_end_spec, trim_spec, views,
};

verus! {

/// The format URL of machine-readable copyright files.
pub const DEB_COPYRIGHT_FORMAT: &'static str = "https://www.debian.org/doc/packaging-manuals/copyright-format/1.0/";

/// The upstream paragraph.
pub struct UpstreamInfo {
    pub name: String,
    pub contacts: Vec<String>,
    pub source: String,
}

/// A `Files` paragraph.
pub struct Files {
    pub files: String,
    pub copyright: Vec<String>,
    pub license: String,
    pub comment: String,
}

/// A stand-alone `License` paragraph: the license's name and its text.
pub struct License {
    pub name: String,
    pub text: String,
}

/// The whole copyright file.
pub struct DebCopyright {
    pub format: String,
    pub upstream: UpstreamInfo,
    pub files: Vec<Files>,
    pub licenses: Vec<License>,
}

/// What can go wrong when writing the copyright file.
#[derive(Clone, Copy)]
pub enum CopyrightError {
    /// The crate declares neither a license nor a license file.
    NoLicense,
    /// A regular expression of the library did not compile.
    BadPattern,
}

/// Each line of `text` with trailing whitespace removed, indented by one
/// space; an empty line becomes ` .`.
pub open spec fn para_line(line: Seq<char>) -> Seq<char> {
    let l = trim_end_spec(line);
    (if l.len() == 0 {
        " ."@
    } else {
        " "@ + l
    }) + "\n"@
}

/// The paragraph text of `ls`, line by line.
pub open spec fn para_body(ls: Seq<Seq<char>>) -> Seq<char>
    decreases ls.len(),
{
    if ls.len() == 0 {
        Seq::empty()
    } else {
        para_body(ls.drop_last()) + para_line(ls.last())
    }
}

/// A multi-line text as the continuation lines of a field.
pub open spec fn format_para_spec(text: Seq<char>) -> Seq<char> {
    para_body(lines_spec(text))
}

/// A multi-line text as the continuation lines of a field.
pub fn format_para(text: &str) -> (r: String)
    ensures
        r@ == format_para_spec(text@),
{
    let ls = lines(text);
    let ghost all = views(ls@);
    let mut s = String::new();
    let mut i: usize = 0;
    while i < ls.len()
        invariant
            i <= ls@.len(),
            all == views(ls@),
            all == lines_spec(text@),
            s@ == para_body(all.subrange(0, i as int)),
        decreases ls.len() - i,
    {
        assert(all.subrange(0, i + 1).drop_last() =~= all.subrange(0, i as int));
        let l = trim_end(ls[i].as_str());
        if l.as_str().is_empty() {
            push_str(&mut s, " .");
        } else {
            push_str(&mut s, " ");
            push_str(&mut s, l.as_str());
        }
        push_str(&mut s, "\n");
        i = i + 1;
    }
    assert(all.subrange(0, all.len() as int) =~= all);
    s
}

/// The contact or copyright lines: each ` <line>\n`, on a line of their own
/// (after a line break) when there is more than one.
pub open spec fn multi_lines(v: Seq<Seq<char>>) -> Seq<char> {
    (if v.len() > 1 {
        "\n"@
    } else {
        Seq::empty()
    }) + crate::text::suffixed_spec(v.map_values(|c: Seq<char>| " "@ + c), "\n"@)
}

fn write_multi_lines(v: &Vec<String>) -> (r: String)
    ensures
        r@ == multi_lines(views(v@)),
{
    let mut s = String::new();
    if v.len() > 1 {
        push_str(&mut s, "\n");
    }
    let ghost head = s@;
    let ghost mapped = views(v@).map_values(|c: Seq<char>| " "@ + c);
    let mut i: usize = 0;
    while i < v.len()
        invariant
            i <= v@.len(),
            mapped == views(v@).map_values(|c: Seq<char>| " "@ + c),
            s@ == head + crate::text::suffixed_spec(mapped.subrange(0, i as int), "\n"@),
        decreases v.len() - i,
    {
        assert(mapped.subrange(0, i + 1).drop_last() =~= mapped.subrange(0, i as int));
        push_str(&mut s, " ");
        push_str(&mut s, v[i].as_str());
        push_str(&mut s, "\n");
        i = i + 1;
    }
    assert(mapped.subrange(0, mapped.len() as int) =~= mapped);
    s
}

/// The text of the upstream paragraph.
pub open spec fn upstream_text(u: UpstreamInfo) -> Seq<char> {
    "Upstream-Name: "@ + u.name@ + "\n"@ + "Upstream-Contact:"@ + multi_lines(views(u.contacts@)) + (
    if u.source@.len() == 0 {
        Seq::empty()
    } else {
        "Source: "@ + u.source@ + "\n"@
    })
}

/// The text of a `Files` paragraph.
pub open spec fn files_text(f: Files) -> Seq<char> {
    "Files: "@ + f.files@ + "\n"@ + "Copyright:"@ + multi_lines(views(f.copyright@)) + "License: "@
        + f.license@ + "\n"@ + (if f.comment@.len() == 0 {
        Seq::empty()
    } else {
        "Comment:\n"@ + format_para_spec(f.comment@)
    })
}

/// The text of a `License` paragraph.
pub open spec fn license_text(l: License) -> Seq<char> {
    "License: "@ + l.name@ + "\n"@ + format_para_spec(l.text@)
}

/// The paragraphs `ps`, each preceded by an empty line.
pub open spec fn blocks(ps: Seq<Seq<char>>) -> Seq<char>
    decreases ps.len(),
{
    if ps.len() == 0 {
        Seq::empty()
    } else {
        blocks(ps.drop_last()) + "\n"@ + ps.last()
    }
}

/// The text of the copyright file.
pub open spec fn copyright_text(c: DebCopyright) -> Seq<char> {
    "Format: "@ + c.format@ + "\n"@ + upstream_text(c.upstream) + blocks(
        c.files@.map_values(|f: Files| files_text(f)),
    ) + blocks(c.licenses@.map_values(|l: License| license_text(l)))
}

impl UpstreamInfo {
    /// The upstream paragraph; there is at least one author.
    pub fn new(name: String, authors: &[String], repo: &str) -> (r: UpstreamInfo)
        requires
            authors@.len() > 0,
        ensures
            r.name == name,
            views(r.contacts@) == views(authors@),
            r.source@ == repo@,
    {
        UpstreamInfo { name, contacts: clone_strings(authors), source: String::from_str(repo) }
    }

    /// The text of the paragraph.
    pub fn to_string(&self) -> (r: String)
        ensures
            r@ == upstream_text(*self),
    {
        let mut s = String::from_str("Upstream-Name: ");
        push_str(&mut s, self.name.as_str());
        push_str(&mut s, "\n");
        push_str(&mut s, "Upstream-Contact:");
        push_str(&mut s, write_multi_lines(&self.contacts).as_str());
        if !self.source.as_str().is_empty() {
            push_str(&mut s, "Source: ");
            push_str(&mut s, self.source.as_str());
            push_str(&mut s, "\n");
        }
        s
    }
}

impl Files {
    /// A `Files` paragraph; there is at least one copyright notice.
    pub fn new(name: &str, notice: &[String], license: &str, comment: &str) -> (r: Files)
        requires
            notice@.len() > 0,
        ensures
            r.files@ == name@,
            views(r.copyright@) == views(notice@),
            r.license@ == license@,
            r.comment@ == comment@,
    {
        Files {
            files: String::from_str(name),
            copyright: clone_strings(notice),
            license: String::from_str(license),
            comment: String::from_str(comment),
        }
    }

    /// The files the paragraph is about.
    pub fn files(&self) -> (r: &str)
        ensures
            r@ == self.files@,
    {
        self.files.as_str()
    }

    /// The license of those files.
    pub fn license(&self) -> (r: &str)
        ensures
            r@ == self.license@,
    {
        self.license.as_str()
    }

    /// The text of the paragraph.
    pub fn to_string(&self) -> (r: String)
        ensures
            r@ == files_text(*self),
    {
        let mut s = String::from_str("Files: ");
        push_str(&mut s, self.files.as_str());
        push_str(&mut s, "\n");
        push_str(&mut s, "Copyright:");
        push_str(&mut s, write_multi_lines(&self.copyright).as_str());
        push_str(&mut s, "License: ");
        push_str(&mut s, self.license.as_str());
        push_str(&mut s, "\n");
        if !self.comment.as_str().is_empty() {
            push_str(&mut s, "Comment:\n");
            push_str(&mut s, format_para(self.comment.as_str()).as_str());
        }
        s
    }
}

impl License {
    /// A license paragraph with its text.
    pub fn new(name: String, text: String) -> (r: License)
        ensures
            r.name == name,
            r.text == text,
    {
        License { name, text }
    }

    /// The text of the paragraph.
    pub fn to_string(&self) -> (r: String)
        ensures
            r@ == license_text(*self),
    {
        let mut s = String::from_str("License: ");
        push_str(&mut s, self.name.as_str());
        push_str(&mut s, "\n");
        push_str(&mut s, format_para(self.text.as_str()).as_str());
        s
    }
}

impl DebCopyright {
    /// The copyright file made of the given paragraphs.
    pub fn new(u: UpstreamInfo, f: Vec<Files>, l: Vec<License>) -> (r: DebCopyright)
        ensures
            r.format@ == DEB_COPYRIGHT_FORMAT@,
            r.upstream == u,
            r.files@ == f@,
            r.licenses@ == l@,
    {
        DebCopyright { format: String::from_str(DEB_COPYRIGHT_FORMAT), upstream: u, files: f, licenses: l }
    }

    /// The text of the file.
    pub fn to_string(&self) -> (r: String)
        ensures
            r@ == copyright_text(*self),
    {
        let mut s = String::from_str("Format: ");
        push_str(&mut s, self.format.as_str());
        push_str(&mut s, "\n");
        push_str(&mut s, self.upstream.to_string().as_str());
        let ghost head = s@;
        let ghost fs = self.files@.map_values(|f: Files| files_text(f));
        let mut i: usize = 0;
        while i < self.files.len()
            invariant
                i <= self.files@.len(),
                fs == self.files@.map_values(|f: Files| files_text(f)),
                s@ == head + blocks(fs.subrange(0, i as int)),
            decreases self.files.len() - i,
        {
            assert(fs.subrange(0, i + 1).drop_last() =~= fs.subrange(0, i as int));
            push_str(&mut s, "\n");
            push_str(&mut s, self.files[i].to_string().as_str());
            i = i + 1;
        }
        assert(fs.subrange(0, fs.len() as int) =~= fs);
        let ghost head2 = s@;
        let ghost ls = self.licenses@.map_values(|l: License| license_text(l));
        let mut j: usize = 0;
        while j < self.licenses.len()
            invariant
                j <= self.licenses@.len(),
                ls == self.licenses@.map_values(|l: License| license_text(l)),
                s@ == head2 + blocks(ls.subrange(0, j as int)),
            decreases self.licenses.len() - j,
        {
            assert(ls.subrange(0, j + 1).drop_last() =~= ls.subrange(0, j as int));
            push_str(&mut s, "\n");
            push_str(&mut s, self.licenses[j].to_string().as_str());
            j = j + 1;
        }
        assert(ls.subrange(0, ls.len() as int) =~= ls);
        s
    }
}

/// The expression that separates the licenses of an SPDX-like expression.
pub const LICENSE_SEPARATOR: &'static str = r"(?i:(\s(or|and)\s|/))";

/// The text of a license paragraph whose license is not recognized.
pub const UNRECOGNIZED_LICENSE: &'static str = "FIXME (overlay): Unrecognized crate license, please find the full license text in the rest of the crate source code and copy-paste it here";

/// The file holding the full text of a recognized license, by its lowercase
/// identifier.
pub open spec fn known_license_file(key: Seq<char>) -> Option<Seq<char>> {
    if key == "agpl-3.0"@ {
        Some("AGPL-3.0"@)
    } else if key == "apache-2.0"@ {
        Some("Apache-2.0"@)
    } else if key == "bsd-2-clause"@ {
        Some("BSD-2-Clause"@)
    } else if key == "bsd-3-clause"@ {
        Some("BSD-3-Clause"@)
    } else if key == "cc0-1.0"@ {
        Some("CC0-1.0"@)
    } else if key == "gpl-2.0"@ {
        Some("GPL-2.0"@)
    } else if key == "gpl-3.0"@ {
        Some("GPL-3.0"@)
    } else if key == "isc"@ {
        Some("ISC"@)
    } else if key == "lgpl-2.0"@ {
        Some("LGPL-2.0"@)
    } else if key == "lgpl-2.1"@ {
        Some("LGPL-2.1"@)
    } else if key == "lgpl-3.0"@ {
        Some("LGPL-3.0"@)
    } else if key == "mit"@ {
        Some("MIT"@)
    } else if key == "mitnfa"@ {
        Some("MITNFA"@)
    } else if key == "mpl-1.1"@ {
        Some("MPL-1.1"@)
    } else if key == "mpl-2.0"@ {
        Some("MPL-2.0"@)
    } else if key == "unlicense"@ {
        Some("Unlicense"@)
    } else if key == "zlib"@ {
        Some("Zlib"@)
    } else {
        None
    }
}

/// A recognized license is given the file of its own identifier: the
/// file's name, with ASCII letters lowered, is the key it was found by.
pub proof fn lemma_known_license_file_of_own_key(key: Seq<char>)
    ensures
        known_license_file(key) matches Some(f) ==> ascii_lower(f) == key,
{
    if key == "agpl-3.0"@ {
        reveal_strlit("agpl-3.0");
        reveal_strlit("AGPL-3.0");
        assert(ascii_lower("AGPL-3.0"@) =~= "agpl-3.0"@);
    } else if key == "apache-2.0"@ {
        reveal_strlit("apache-2.0");
        reveal_strlit("Apache-2.0");
        assert(ascii_lower("Apache-2.0"@) =~= "apache-2.0"@);
    } else if key == "bsd-2-clause"@ {
        reveal_strlit("bsd-2-clause");
        reveal_strlit("BSD-2-Clause");
        assert(ascii_lower("BSD-2-Clause"@) =~= "bsd-2-clause"@);
    } else if key == "bsd-3-clause"@ {
        reveal_strlit("bsd-3-clause");
        reveal_strlit("BSD-3-Clause");
        assert(ascii_lower("BSD-3-Clause"@) =~= "bsd-3-clause"@);
    } else if key == "cc0-1.0"@ {
        reveal_strlit("cc0-1.0");
        reveal_strlit("CC0-1.0");
        assert(ascii_lower("CC0-1.0"@) =~= "cc0-1.0"@);
    } else if key == "gpl-2.0"@ {
        reveal_strlit("gpl-2.0");
        reveal_strlit("GPL-2.0");
        assert(ascii_lower("GPL-2.0"@) =~= "gpl-2.0"@);
    } else if key == "gpl-3.0"@ {
        reveal_strlit("gpl-3.0");
        reveal_strlit("GPL-3.0");
        assert(ascii_lower("GPL-3.0"@) =~= "gpl-3.0"@);
    } else if key == "isc"@ {
        reveal_strlit("isc");
        reveal_strlit("ISC");
        assert(ascii_lower("ISC"@) =~= "isc"@);
    } else if key == "lgpl-2.0"@ {
        reveal_strlit("lgpl-2.0");
        reveal_strlit("LGPL-2.0");
        assert(ascii_lower("LGPL-2.0"@) =~= "lgpl-2.0"@);
    } else if key == "lgpl-2.1"@ {
        reveal_strlit("lgpl-2.1");
        reveal_strlit("LGPL-2.1");
        assert(ascii_lower("LGPL-2.1"@) =~= "lgpl-2.1"@);
    } else if key == "lgpl-3.0"@ {
        reveal_strlit("lgpl-3.0");
        reveal_strlit("LGPL-3.0");
        assert(ascii_lower("LGPL-3.0"@) =~= "lgpl-3.0"@);
    } else if key == "mit"@ {
        reveal_strlit("mit");
        reveal_strlit("MIT");
        assert(ascii_lower("MIT"@) =~= "mit"@);
    } else if key == "mitnfa"@ {
        reveal_strlit("mitnfa");
        reveal_strlit("MITNFA");
        assert(ascii_lower("MITNFA"@) =~= "mitnfa"@);
    } else if key == "mpl-1.1"@ {
        reveal_strlit("mpl-1.1");
        reveal_strlit("MPL-1.1");
        assert(ascii_lower("MPL-1.1"@) =~= "mpl-1.1"@);
    } else if key == "mpl-2.0"@ {
        reveal_strlit("mpl-2.0");
        reveal_strlit("MPL-2.0");
        assert(ascii_lower("MPL-2.0"@) =~= "mpl-2.0"@);
    } else if key == "unlicense"@ {
        reveal_strlit("unlicense");
        reveal_strlit("Unlicense");
        assert(ascii_lower("Unlicense"@) =~= "unlicense"@);
    } else if key == "zlib"@ {
        reveal_strlit("zlib");
        reveal_strlit("Zlib");
        assert(ascii_lower("Zlib"@) =~= "zlib"@);
    }
}

fn some_string(s: &str) -> (r: Option<String>)
    ensures
        opt_view(r) == Some(s@),
{
    Some(String::from_str(s))
}

/// The file of a recognized license.
fn license_file_for(key: &str) -> (r: Option<String>)
    ensures
        opt_view(r) == known_license_file(key@),
{
    if str_eq(key, "agpl-3.0") {
        some_string("AGPL-3.0")
    } else if str_eq(key, "apache-2.0") {
        some_string("Apache-2.0")
    } else if str_eq(key, "bsd-2-clause") {
        some_string("BSD-2-Clause")
    } else if str_eq(key, "bsd-3-clause") {
        some_string("BSD-3-Clause")
    } else if str_eq(key, "cc0-1.0") {
        some_string("CC0-1.0")
    } else if str_eq(key, "gpl-2.0") {
        some_string("GPL-2.0")
    } else if str_eq(key, "gpl-3.0") {
        some_string("GPL-3.0")
    } else if str_eq(key, "isc") {
        some_string("ISC")
    } else if str_eq(key, "lgpl-2.0") {
        some_string("LGPL-2.0")
    } else if str_eq(key, "lgpl-2.1") {
        some_string("LGPL-2.1")
    } else if str_eq(key, "lgpl-3.0") {
        some_string("LGPL-3.0")
    } else if str_eq(key, "mit") {
        some_string("MIT")
    } else if str_eq(key, "mitnfa") {
        some_string("MITNFA")
    } else if str_eq(key, "mpl-1.1") {
        some_string("MPL-1.1")
    } else if str_eq(key, "mpl-2.0") {
        some_string("MPL-2.0")
    } else if str_eq(key, "unlicense") {
        some_string("Unlicense")
    } else if str_eq(key, "zlib") {
        some_string("Zlib")
    } else {
        None
    }
}

/// The identifier a license name is looked up by: lowercase, without a
/// trailing `+` or `-or-later`.
pub open spec fn license_key(name: Seq<char>) -> Seq<char> {
    trim_end_matches_spec(trim_end_matches_spec(lowercase(name), "+"@), "-or-later"@)
}

/// The license paragraph for the license called `name`: a recognized
/// license carries the text of its license file; any other carries a note
/// asking for its text.
pub open spec fn license_named(l: License, name: Seq<char>) -> bool {
    &&& l.name@ == name
    &&& l.text@ == match known_license_file(license_key(name)) {
        Some(f) => license_file_text(f),
        None => UNRECOGNIZED_LICENSE@,
    }
}

/// The license names among the pieces of a license expression: every
/// piece that is not empty, trimmed.
pub open spec fn license_names(parts: Seq<Seq<char>>) -> Seq<Seq<char>>
    decreases parts.len(),
{
    if parts.len() == 0 {
        Seq::empty()
    } else if parts.last().len() > 0 {
        license_names(parts.drop_last()).push(trim_spec(parts.last()))
    } else {
        license_names(parts.drop_last())
    }
}

/// The names of license paragraphs.
pub open spec fn names_of(ls: Seq<License>) -> Seq<Seq<char>> {
    ls.map_values(|l: License| l.name@)
}

/// The license paragraphs for the pieces `parts` of a license expression:
/// one per distinct name, in the order of the names.
pub open spec fn licenses_for_parts(parts: Seq<Seq<char>>, ls: Seq<License>) -> bool {
    &&& strictly_sorted(names_of(ls))
    &&& names_of(ls).to_set() == license_names(parts).to_set()
    &&& forall|i: int| 0 <= i < ls.len() ==> license_named(#[trigger] ls[i], ls[i].name@)
}

/// The license paragraph for one license name.
pub fn license_for(name: &str) -> (r: License)
    ensures
        license_named(r, name@),
{
    let lower = to_lowercase(name);
    let no_plus = trim_end_matches(lower.as_str(), "+");
    let key = trim_end_matches(no_plus.as_str(), "-or-later");
    let text = match license_file_for(key.as_str()) {
        Some(f) => license_file_contents(f.as_str()),
        None => String::from_str(UNRECOGNIZED_LICENSE),
    };
    License { name: String::from_str(name), text }
}

/// The license paragraphs for the pieces of a license expression.
pub fn licenses_from_parts(parts: &Vec<String>) -> (r: Vec<License>)
    ensures
        licenses_for_parts(views(parts@), r@),
{
    let mut names: Vec<String> = Vec::new();
    let mut i: usize = 0;
    while i < parts.len()
        invariant
            i <= parts@.len(),
            views(names@) == license_names(views(parts@.subrange(0, i as int))),
        decreases parts.len() - i,
    {
        assert(views(parts@.subrange(0, i + 1)).drop_last() =~= views(parts@.subrange(0, i as int)));
        if !parts[i].as_str().is_empty() {
            let t = trim(parts[i].as_str());
            let ghost prev = names@;
            names.push(t);
            assert(views(names@) =~= views(prev).push(t@));
        }
        i = i + 1;
    }
    assert(parts@.subrange(0, parts@.len() as int) =~= parts@);
    let sorted = sort_dedup(names);
    let mut out: Vec<License> = Vec::new();
    let mut j: usize = 0;
    while j < sorted.len()
        invariant
            j <= sorted@.len(),
            out@.len() == j,
            forall|k: int| 0 <= k < j ==> #[trigger] out@[k].name@ == sorted@[k]@ && license_named(out@[k], sorted@[k]@),
        decreases sorted.len() - j,
    {
        let l = license_for(sorted[j].as_str());
        out.push(l);
        j = j + 1;
    }
    assert(names_of(out@) =~= views(sorted@));
    out
}

/// The license paragraphs for the license expression `license`, such as
/// `MIT OR Apache-2.0` or `MIT/Apache-2.0`.
pub fn get_licenses(license: &str) -> (r: Result<Vec<License>, CopyrightError>)
    ensures
        r is Ok <==> regex_valid(LICENSE_SEPARATOR@),
        r matches Ok(ls) ==> licenses_for_parts(regex_split(LICENSE_SEPARATOR@, license@), ls@),
        r matches Err(e) ==> e is BadPattern,
{
    match RegexMatcher::new(LICENSE_SEPARATOR) {
        Some(sep) => {
            let parts = sep.split(license);
            Ok(licenses_from_parts(&parts))
        },
        None => Err(CopyrightError::BadPattern),
    }
}

/// The expression that finds a copyright notice in a line; its first group
/// is the notice, from its year on.
pub const COPYRIGHT_NOTICE: &'static str = r"(?:[Cc]opyright|©)(?:\s|[©:,()Cc<])*\b(\d{4}\b.*)$";

/// A tail that is cut from extracted notices.
pub const NOTICE_TAIL: &'static str = ". See the COPYRIGHT";

/// The license of the files whose notices were extracted.
pub const UNKNOWN_LICENSE: &'static str = "UNKNOWN-LICENSE; FIXME (overlay)";

/// The comment on the paragraphs of extracted notices.
pub const EXTRACTED_NOTICES: &'static str = "FIXME (overlay): These notices are extracted from files. Please review them before uploading to the archive.";

/// The notice found in one line, if any.
pub open spec fn line_notice(src: Seq<char>, line: Seq<char>) -> Option<Seq<char>> {
    match regex_capture(src, line, 1) {
        Some(m) => Some(trim_end_matches_spec(trim_end_spec(m), NOTICE_TAIL@)),
        None => None,
    }
}

/// The notices found in the lines of a file, in order.
pub open spec fn lines_notices(src: Seq<char>, ls: Seq<Seq<char>>) -> Seq<Seq<char>>
    decreases ls.len(),
{
    if ls.len() == 0 {
        Seq::empty()
    } else {
        let r = lines_notices(src, ls.drop_last());
        match line_notice(src, ls.last()) {
            Some(n) => r.push(n),
            None => r,
        }
    }
}

/// The notices of the lines of one file.
pub fn notices_in_lines(p: &RegexMatcher, lines: &Vec<String>) -> (r: Vec<String>)
    ensures
        views(r@) == lines_notices(p.source(), views(lines@)),
{
    let mut out: Vec<String> = Vec::new();
    let mut i: usize = 0;
    while i < lines.len()
        invariant
            i <= lines@.len(),
            views(out@) == lines_notices(p.source(), views(lines@.subrange(0, i as int))),
        decreases lines.len() - i,
    {
        assert(views(lines@.subrange(0, i + 1)).drop_last() =~= views(lines@.subrange(0, i as int)));
        match p.capture(lines[i].as_str(), 1) {
            Some(m) => {
                let t = trim_end(m.as_str());
                let n = trim_end_matches(t.as_str(), NOTICE_TAIL);
                let ghost prev = out@;
                out.push(n);
                assert(views(out@) =~= views(prev).push(n@));
            },
            None => {},
        }
        i = i + 1;
    }
    assert(lines@.subrange(0, lines@.len() as int) =~= lines@);
    out
}

/// Each file with the notices found in it.
pub open spec fn file_notices(src: Seq<char>, files: Seq<(String, Vec<String>)>) -> Seq<
    (Seq<char>, Seq<Seq<char>>),
> {
    files.map_values(|f: (String, Vec<String>)| (f.0@, lines_notices(src, views(f.1@))))
}

/// All notices found for `path`, in order.
pub open spec fn notices_of(es: Seq<(Seq<char>, Seq<Seq<char>>)>, path: Seq<char>) -> Seq<Seq<char>>
    decreases es.len(),
{
    if es.len() == 0 {
        Seq::empty()
    } else {
        notices_of(es.drop_last(), path) + (if es.last().0 == path {
            es.last().1
        } else {
            Seq::empty()
        })
    }
}

/// The paths of the files in which a notice was found.
pub open spec fn noticed_paths(es: Seq<(Seq<char>, Seq<Seq<char>>)>) -> Seq<Seq<char>>
    decreases es.len(),
{
    if es.len() == 0 {
        Seq::empty()
    } else if es.last().1.len() > 0 {
        noticed_paths(es.drop_last()).push(es.last().0)
    } else {
        noticed_paths(es.drop_last())
    }
}

/// A path in which a notice was found has notices.
proof fn lemma_noticed_has_notices(es: Seq<(Seq<char>, Seq<Seq<char>>)>, path: Seq<char>)
    requires
        noticed_paths(es).contains(path),
    ensures
        notices_of(es, path).len() > 0,
    decreases es.len(),
{
    if es.last().1.len() > 0 && es.last().0 == path {
    } else {
        if es.last().1.len() > 0 {
            let k = choose|k: int| 0 <= k < noticed_paths(es).len() && noticed_paths(es)[k] == path;
            assert(noticed_paths(es.drop_last()).push(es.last().0)[k] == path);
            assert(noticed_paths(es.drop_last()).contains(path));
        }
        lemma_noticed_has_notices(es.drop_last(), path);
    }
}

/// The names of the files of `Files` paragraphs.
pub open spec fn paths_of(fs: Seq<Files>) -> Seq<Seq<char>> {
    fs.map_values(|f: Files| f.files@)
}

/// The `Files` paragraph made of notices extracted from `path`.
pub open spec fn extracted_files(f: Files, es: Seq<(Seq<char>, Seq<Seq<char>>)>, path: Seq<char>) -> bool {
    &&& f.files@ == path
    &&& views(f.copyright@) == notices_of(es, path)
    &&& f.license@ == UNKNOWN_LICENSE@
    &&& f.comment@ == textwrap_fill(EXTRACTED_NOTICES@, 79)
}

/// The paragraphs of notices found in `files`, with the notices expression
/// `src`: one per file with a notice, in the order of the paths.
pub open spec fn generated_files(src: Seq<char>, files: Seq<(String, Vec<String>)>, fs: Seq<Files>) -> bool {
    let es = file_notices(src, files);
    &&& strictly_sorted(paths_of(fs))
    &&& paths_of(fs).to_set() == noticed_paths(es).to_set()
    &&& forall|k: int| 0 <= k < fs.len() ==> extracted_files(#[trigger] fs[k], es, fs[k].files@)
}

/// The notices found for one path, gathered from every entry for it.
fn gather_notices(es: &Vec<(String, Vec<String>)>, path: &str) -> (r: Vec<String>)
    ensures
        views(r@) == notices_of(es@.map_values(|e: (String, Vec<String>)| (e.0@, views(e.1@))), path@),
{
    let ghost all = es@.map_values(|e: (String, Vec<String>)| (e.0@, views(e.1@)));
    let mut out: Vec<String> = Vec::new();
    let mut i: usize = 0;
    while i < es.len()
        invariant
            i <= es@.len(),
            all == es@.map_values(|e: (String, Vec<String>)| (e.0@, views(e.1@))),
            views(out@) == notices_of(all.subrange(0, i as int), path@),
        decreases es.len() - i,
    {
        assert(all.subrange(0, i + 1).drop_last() =~= all.subrange(0, i as int));
        if str_eq(es[i].0.as_str(), path) {
            let ghost prev = views(out@);
            extend_strings(&mut out, &es[i].1);
            assert(views(out@) =~= prev + views(es@[i as int].1@));
        } else {
            assert(notices_of(all.subrange(0, i + 1), path@) =~= notices_of(all.subrange(0, i as int), path@));
        }
        i = i + 1;
    }
    assert(all.subrange(0, all.len() as int) =~= all);
    out
}

/// The `Files` paragraphs of the copyright notices found in the source
/// files: `files` holds each file's path and lines.
pub fn gen_files(files: &Vec<(String, Vec<String>)>) -> (r: Result<Vec<Files>, CopyrightError>)
    ensures
        r is Ok <==> regex_valid(COPYRIGHT_NOTICE@),
        r matches Ok(fs) ==> generated_files(COPYRIGHT_NOTICE@, files@, fs@),
        r matches Err(e) ==> e is BadPattern,
{
    let p = match RegexMatcher::new(COPYRIGHT_NOTICE) {
        Some(p) => p,
        None => {
            return Err(CopyrightError::BadPattern);
        },
    };
    let ghost src = p.source();
    let mut es: Vec<(String, Vec<String>)> = Vec::new();
    let mut paths: Vec<String> = Vec::new();
    let mut i: usize = 0;
    while i < files.len()
        invariant
            i <= files@.len(),
            src == p.source(),
            src == COPYRIGHT_NOTICE@,
            es@.map_values(|e: (String, Vec<String>)| (e.0@, views(e.1@))) == file_notices(
                src,
                files@.subrange(0, i as int),
            ),
            views(paths@) == noticed_paths(file_notices(src, files@.subrange(0, i as int))),
        decreases files.len() - i,
    {
        let ns = notices_in_lines(&p, &files[i].1);
        let path = files[i].0.clone();
        let ghost prev_es = es@;
        let ghost prev_paths = paths@;
        if ns.len() > 0 {
            paths.push(files[i].0.clone());
        }
        es.push((path, ns));
        proof {
            let f = |e: (String, Vec<String>)| (e.0@, views(e.1@));
            assert(files@.subrange(0, i + 1).drop_last() =~= files@.subrange(0, i as int));
            assert(es@ =~= prev_es.push(es@[i as int]));
            assert(es@.map_values(f) =~= prev_es.map_values(f).push(f(es@[i as int])));
            assert(file_notices(src, files@.subrange(0, i + 1)) =~= file_notices(src, files@.subrange(0, i as int)).push(
                (files@[i as int].0@, lines_notices(src, views(files@[i as int].1@))),
            ));
            let cur = file_notices(src, files@.subrange(0, i + 1));
            assert(cur.drop_last() =~= file_notices(src, files@.subrange(0, i as int)));
            assert(cur.last().1 == views(ns@));
            assert(cur.last().1.len() == ns@.len());
            if ns@.len() > 0 {
                assert(views(paths@) =~= views(prev_paths).push(files@[i as int].0@));
            } else {
                assert(paths@ =~= prev_paths);
            }
        }
        i = i + 1;
    }
    assert(files@.subrange(0, files@.len() as int) =~= files@);
    let ghost all = file_notices(src, files@);
    let sorted = sort_dedup(paths);
    let comment = fill(EXTRACTED_NOTICES, 79);
    let mut out: Vec<Files> = Vec::new();
    let mut j: usize = 0;
    while j < sorted.len()
        invariant
            j <= sorted@.len(),
            all == file_notices(src, files@),
            es@.map_values(|e: (String, Vec<String>)| (e.0@, views(e.1@))) == all,
            views(sorted@).to_set() == noticed_paths(all).to_set(),
            comment@ == textwrap_fill(EXTRACTED_NOTICES@, 79),
            out@.len() == j,
            forall|k: int| 0 <= k < j ==> #[trigger] out@[k].files@ == sorted@[k]@ && extracted_files(out@[k], all, sorted@[k]@),
        decreases sorted.len() - j,
    {
        let ns = gather_notices(&es, sorted[j].as_str());
        proof {
            assert(views(sorted@)[j as int] == sorted@[j as int]@);
            assert(views(sorted@).to_set().contains(sorted@[j as int]@));
            assert(noticed_paths(all).to_set().contains(sorted@[j as int]@));
            lemma_noticed_has_notices(all, sorted@[j as int]@);
        }
        let f = Files::new(sorted[j].as_str(), ns.as_slice(), UNKNOWN_LICENSE, comment.as_str());
        out.push(f);
        j = j + 1;
    }
    assert(paths_of(out@) =~= views(sorted@));
    Ok(out)
}

/// What the crate's manifest says of its name, authors and license.
pub struct ManifestMeta {
    pub name: String,
    pub authors: Vec<String>,
    pub repository: Option<String>,
    pub license: Option<String>,
    /// The contents of the license file that the manifest names, if any.
    pub license_file_text: Option<String>,
}

/// The years of the upstream notices when they cannot be guessed.
pub const UNKNOWN_YEARS: &'static str = "FIXME (overlay) UNKNOWN-YEARS";

/// The comment on the catch-all paragraph.
pub const GUESSED_YEARS: &'static str = "FIXME (overlay): Since upstream copyright years are not available in Cargo.toml, they were extracted from the upstream Git repository. This may not be correct information so you should review and fix this before uploading to the archive.";

/// A year range as written in notices: one year, or `first-last`.
pub open spec fn years_text(y0: i32, y1: i32) -> Seq<char> {
    if y0 == y1 {
        decimal_i32(y0)
    } else {
        decimal_i32(y0) + "-"@ + decimal_i32(y1)
    }
}

/// The years of the history of a repository, from the years of its first
/// and latest commits: one year, or `first-last,`.
pub open spec fn git_years_text(first: i32, latest: i32) -> Seq<char> {
    if first == latest {
        decimal_i32(first)
    } else {
        decimal_i32(first) + "-"@ + decimal_i32(latest) + ","@
    }
}

/// Each name preceded by `years` and a space.
pub open spec fn dated(years: Seq<char>, names: Seq<Seq<char>>) -> Seq<Seq<char>> {
    names.map_values(|n: Seq<char>| years + " "@ + n)
}

/// The license expression in the spelling of the copyright format.
pub open spec fn crate_license_text(l: Seq<char>) -> Seq<char> {
    replace_spec(replace_spec(replace_spec(trim_spec(l), "/"@, " or "@), " OR "@, " or "@), " AND "@, " and "@)
}

/// The repository, or nothing.
pub open spec fn repository_of(m: ManifestMeta) -> Seq<char> {
    match m.repository {
        Some(r) => r@,
        None => Seq::empty(),
    }
}

/// The license of the `Files` paragraphs that cover the whole crate: the
/// crate's license expression, or nothing when a license file stands in
/// for it.
pub open spec fn crate_license_of(m: ManifestMeta) -> Seq<char> {
    if m.license_file_text is Some {
        Seq::empty()
    } else {
        match m.license {
            Some(l) => crate_license_text(l@),
            None => Seq::empty(),
        }
    }
}

/// The years of the upstream notices: the repository's history when asked
/// to guess and there is a repository whose history could be read.
pub open spec fn upstream_years(m: ManifestMeta, guess_harder: bool, git_years: Option<String>) -> Seq<char> {
    if guess_harder && repository_of(m).len() > 0 {
        match git_years {
            Some(y) => y@,
            None => UNKNOWN_YEARS@,
        }
    } else {
        UNKNOWN_YEARS@
    }
}

/// A `Files` paragraph with the given parts.
pub open spec fn files_is(f: Files, name: Seq<char>, notices: Seq<Seq<char>>, license: Seq<char>, comment: Seq<char>) -> bool {
    &&& f.files@ == name
    &&& views(f.copyright@) == notices
    &&& f.license@ == license
    &&& f.comment@ == comment
}

/// The license paragraphs of the crate: the license file's text, or the
/// paragraphs of its license expression.
pub open spec fn copyright_licenses(m: ManifestMeta, ls: Seq<License>) -> bool {
    match m.license_file_text {
        Some(t) => ls.len() == 1 && ls[0].name@ == UNKNOWN_LICENSE@ && ls[0].text@ == t@,
        None => match m.license {
            Some(l) => licenses_for_parts(regex_split(LICENSE_SEPARATOR@, l@), ls),
            None => false,
        },
    }
}

/// Whether the copyright file cannot be written for want of a license.
pub open spec fn lacks_license(m: ManifestMeta) -> bool {
    m.license_file_text is None && m.license is None
}

/// A year range as written in notices.
pub fn years_string(y0: i32, y1: i32) -> (r: String)
    ensures
        r@ == years_text(y0, y1),
{
    if y0 == y1 {
        i32_to_string(y0)
    } else {
        concat3(i32_to_string(y0).as_str(), "-", i32_to_string(y1).as_str())
    }
}

/// The years of a repository's history, from the years of its first and
/// latest commits.
pub fn git_years_notice(first: i32, latest: i32) -> (r: String)
    ensures
        r@ == git_years_text(first, latest),
{
    if first == latest {
        i32_to_string(first)
    } else {
        let s = concat3(i32_to_string(first).as_str(), "-", i32_to_string(latest).as_str());
        concat2(s.as_str(), ",")
    }
}

/// The year, in UTC, of a time given in seconds since the Unix epoch, as
/// `chrono::DateTime::from_timestamp` and `Datelike::year` give it; none
/// when chrono cannot represent that time.
pub uninterp spec fn utc_year_of(seconds: i64) -> Option<int>;

/// `chrono::DateTime::from_timestamp`, then `Datelike::year`.
#[verifier::external_body]
fn utc_year(seconds: i64) -> (r: Option<i32>)
    ensures
        match r {
            Some(y) => utc_year_of(seconds) == Some(y as int),
            None => utc_year_of(seconds) is None,
        },
{
    chrono::DateTime::from_timestamp(seconds, 0).map(|d| d.year())
}

/// The years of a repository's history from the times of its first and
/// latest commits, in seconds since the Unix epoch; none when a time has
/// no year.
pub fn git_years_from_times(first_seconds: i64, latest_seconds: i64) -> (r: Option<String>)
    ensures
        match (utc_year_of(first_seconds), utc_year_of(latest_seconds)) {
            (Some(a), Some(b)) => r matches Some(s) && exists|x: i32, y: i32|
                x == a && y == b && s@ == #[trigger] git_years_text(x, y),
            _ => r is None,
        },
{
    let first = match utc_year(first_seconds) {
        Some(y) => y,
        None => {
            return None;
        },
    };
    let latest = match utc_year(latest_seconds) {
        Some(y) => y,
        None => {
            return None;
        },
    };
    let s = git_years_notice(first, latest);
    assert(s@ == git_years_text(first, latest));
    Some(s)
}

/// Each name preceded by `years` and a space.
pub fn dated_notices(years: &str, names: &Vec<String>) -> (r: Vec<String>)
    ensures
        views(r@) == dated(years@, views(names@)),
{
    let mut out: Vec<String> = Vec::new();
    let mut i: usize = 0;
    while i < names.len()
        invariant
            i <= names@.len(),
            views(out@) == dated(years@, views(names@.subrange(0, i as int))),
        decreases names.len() - i,
    {
        let n = concat3(years, " ", names[i].as_str());
        let ghost prev = out@;
        out.push(n);
        assert(views(out@) =~= views(prev).push(n@));
        assert(dated(years@, views(names@.subrange(0, i + 1))) =~= dated(years@, views(names@.subrange(0, i as int))).push(n@));
        i = i + 1;
    }
    assert(names@.subrange(0, names@.len() as int) =~= names@);
    out
}

/// The license expression in the spelling of the copyright format.
pub fn crate_license_string(l: &str) -> (r: String)
    ensures
        r@ == crate_license_text(l@),
{
    let t = trim(l);
    let a = replace_str(t.as_str(), "/", " or ");
    let b = replace_str(a.as_str(), " OR ", " or ");
    replace_str(b.as_str(), " AND ", " and ")
}

/// The copyright file of a crate: `meta` is what its manifest says,
/// `source_files` the path and lines of each of its files, `uploaders` the
/// packagers, `year_range` the years of the packaging, and `git_years` the
/// years of the upstream history, where it was read (it is used only with
/// `guess_harder` and a repository).
pub fn debian_copyright(
    meta: &ManifestMeta,
    source_files: &Vec<(String, Vec<String>)>,
    uploaders: &Vec<String>,
    year_range: (i32, i32),
    guess_harder: bool,
    git_years: Option<String>,
) -> (r: Result<DebCopyright, CopyrightError>)
    requires
        meta.authors@.len() > 0,
    ensures
        r is Err <==> lacks_license(*meta) || (meta.license_file_text is None && !regex_valid(LICENSE_SEPARATOR@))
            || !regex_valid(COPYRIGHT_NOTICE@),
        r matches Err(e) ==> (e is NoLicense <==> lacks_license(*meta)),
        r matches Ok(c) ==> {
            &&& c.format@ == DEB_COPYRIGHT_FORMAT@
            &&& c.upstream.name@ == meta.name@
            &&& views(c.upstream.contacts@) == views(meta.authors@)
            &&& c.upstream.source@ == repository_of(*meta)
            &&& copyright_licenses(*meta, c.licenses@)
            &&& c.files@.len() >= 2
            &&& files_is(
                c.files@[0],
                "*"@,
                dated(upstream_years(*meta, guess_harder, git_years), views(meta.authors@)),
                crate_license_of(*meta),
                textwrap_fill(GUESSED_YEARS@, 79),
            )
            &&& generated_files(COPYRIGHT_NOTICE@, source_files@, c.files@.subrange(1, c.files@.len() - 1))
            &&& files_is(
                c.files@.last(),
                "debian/*"@,
                dated(years_text(year_range.0, year_range.1), seq![RUST_MAINT@] + views(uploaders@)),
                crate_license_of(*meta),
                Seq::empty(),
            )
        },
{
    proof {
        reveal_strlit("");
    }
    let repo: &str = match &meta.repository {
        Some(r) => r.as_str(),
        None => "",
    };
    let upstream = UpstreamInfo::new(meta.name.clone(), meta.authors.as_slice(), repo);
    let (licenses, crate_license) = match &meta.license_file_text {
        Some(t) => {
            let mut ls: Vec<License> = Vec::new();
            ls.push(License::new(String::from_str(UNKNOWN_LICENSE), t.clone()));
            (ls, String::new())
        },
        None => match &meta.license {
            Some(l) => match get_licenses(l.as_str()) {
                Ok(ls) => (ls, crate_license_string(l.as_str())),
                Err(e) => {
                    return Err(e);
                },
            },
            None => {
                return Err(CopyrightError::NoLicense);
            },
        },
    };
    let generated = match gen_files(source_files) {
        Ok(g) => g,
        Err(e) => {
            return Err(e);
        },
    };
    let years = years_string(year_range.0, year_range.1);
    let mut maintainers: Vec<String> = Vec::new();
    maintainers.push(String::from_str(RUST_MAINT));
    let ghost m0 = maintainers@;
    extend_strings(&mut maintainers, uploaders);
    assert(views(maintainers@) =~= seq![RUST_MAINT@] + views(uploaders@)) by {
        assert(views(m0) =~= seq![RUST_MAINT@]);
    }
    let deb_notice = dated_notices(years.as_str(), &maintainers);
    let up_years: String = if guess_harder && !repo.is_empty() {
        match git_years {
            Some(y) => y,
            None => String::from_str(UNKNOWN_YEARS),
        }
    } else {
        String::from_str(UNKNOWN_YEARS)
    };
    let notice = dated_notices(up_years.as_str(), &meta.authors);
    let comment = fill(GUESSED_YEARS, 79);
    assert(views(notice@).len() == notice@.len());
    assert(views(meta.authors@).len() == meta.authors@.len());
    assert(views(deb_notice@).len() == deb_notice@.len());
    let mut files: Vec<Files> = Vec::new();
    files.push(Files::new("*", notice.as_slice(), crate_license.as_str(), comment.as_str()));
    let mut generated = generated;
    let ghost gen = generated@;
    files.append(&mut generated);
    assert(files@.subrange(1, files@.len() as int) =~= gen);
    let no_comment = "";
    proof {
        reveal_strlit("");
        assert(no_comment@ =~= Seq::<char>::empty());
    }
    files.push(Files::new("debian/*", deb_notice.as_slice(), crate_license.as_str(), no_comment));
    assert(files@.subrange(1, files@.len() - 1) =~= gen);
    Ok(DebCopyright::new(upstream, files, licenses))
}

} // verus!
