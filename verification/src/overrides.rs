//! Overrides of the generated packaging read from an overrides file: the
//! source paragraph, per-package texts and the copyright file.

use vstd::prelude::*;
use vstd::string::*;

use crate::config::{has_unique_keys, keys_unique, opt_view};
use crate::copyright::Files as CFiles;
use crate::text::{clone_strings, join_spec, join_strings, str_eq, views};

verus! {

/// Overrides of the source paragraph.
pub struct Source {
    pub section: Option<String>,
    pub policy: Option<String>,
    pub homepage: Option<String>,
    pub build_depends: Option<Vec<String>>,
}

/// Overrides of one binary package.
pub struct Package {
    pub summary: Option<String>,
    pub description: Option<String>,
    pub depends: Option<Vec<String>>,
}

/// Overrides of one `Files` paragraph.
pub struct Files {
    pub copyright: Vec<String>,
    pub license: String,
}

/// Overrides of the copyright file: files by name, and files to ignore.
pub struct Copyright {
    pub source: Option<String>,
    pub ignore: Option<Vec<String>>,
    pub files: Option<Vec<(String, Files)>>,
}

/// All the overrides.
pub struct Overrides {
    pub source: Option<Source>,
    pub packages: Option<Vec<(String, Package)>>,
    pub copyright: Option<Copyright>,
}

/// The entry for `k` in a list of named entries: the first.
pub open spec fn named<T>(s: Seq<(String, T)>, k: Seq<char>) -> Option<T>
    decreases s.len(),
{
    if s.len() == 0 {
        None
    } else if s[0].0@ == k {
        Some(s[0].1)
    } else {
        named(s.drop_first(), k)
    }
}

/// With distinct keys, the entry found for a key is the one under that key.
pub proof fn lemma_named_unique<T>(s: Seq<(String, T)>, i: int)
    requires
        keys_unique(s),
        0 <= i < s.len(),
    ensures
        named(s, s[i].0@) == Some(s[i].1),
    decreases i,
{
    if i > 0 {
        let t = s.drop_first();
        assert(s[0].0@ != s[i].0@);
        assert forall|a: int, b: int| 0 <= a < b < t.len() implies #[trigger] t[a].0@ != #[trigger] t[b].0@ by {
            assert(t[a] == s[a + 1] && t[b] == s[b + 1]);
        }
        assert(t[i - 1] == s[i]);
        lemma_named_unique(t, i - 1);
    }
}

fn find_named<T>(s: &Vec<(String, T)>, k: &str) -> (r: Option<usize>)
    ensures
        match r {
            Some(i) => i < s@.len() && named(s@, k@) == Some(s@[i as int].1),
            None => named(s@, k@) is None,
        },
{
    let mut i: usize = 0;
    assert(s@.skip(0) =~= s@);
    while i < s.len()
        invariant
            i <= s@.len(),
            named(s@, k@) == named(s@.skip(i as int), k@),
        decreases s.len() - i,
    {
        if str_eq(s[i].0.as_str(), k) {
            return Some(i);
        }
        assert(s@.skip(i as int).drop_first() =~= s@.skip(i + 1));
        i = i + 1;
    }
    None
}

impl Copyright {
    /// The empty overrides.
    pub fn default() -> (r: Copyright)
        ensures
            r.source is None && r.ignore is None && r.files is None,
    {
        Copyright { source: None, ignore: None, files: None }
    }

    /// Whether files are overridden.
    pub fn is_files_present(&self) -> (r: bool)
        ensures
            r == self.files is Some,
    {
        self.files.is_some()
    }

    /// The overridden files, by name.
    pub fn files(&self) -> (r: Option<&Vec<(String, Files)>>)
        ensures
            match r {
                Some(f) => self.files == Some(*f),
                None => self.files is None,
            },
    {
        self.files.as_ref()
    }

    /// The files to ignore.
    pub fn ignore(&self) -> (r: Option<&Vec<String>>)
        ensures
            match r {
                Some(f) => self.ignore == Some(*f),
                None => self.ignore is None,
            },
    {
        self.ignore.as_ref()
    }
}

impl Overrides {
    /// A package name, and a file pattern of the copyright overrides, occur
    /// at most once.
    pub open spec fn wf(&self) -> bool {
        &&& (self.packages matches Some(ps) ==> keys_unique(ps@))
        &&& (self.copyright matches Some(c) ==> (c.files matches Some(fs) ==> keys_unique(fs@)))
    }

    /// Whether a package name, and a file pattern of the copyright
    /// overrides, occur at most once.
    pub fn is_wf(&self) -> (r: bool)
        ensures
            r == self.wf(),
    {
        let p = match &self.packages {
            Some(ps) => has_unique_keys(ps),
            None => true,
        };
        let f = match &self.copyright {
            Some(c) => match &c.files {
                Some(fs) => has_unique_keys(fs),
                None => true,
            },
            None => true,
        };
        p && f
    }

    /// No overrides.
    pub fn default() -> (r: Overrides)
        ensures
            r.wf(),
            r.source is None && r.packages is None && r.copyright is None,
    {
        Overrides { source: None, packages: None, copyright: None }
    }

    /// Whether the source paragraph is overridden.
    pub fn is_source_present(&self) -> (r: bool)
        ensures
            r == self.source is Some,
    {
        self.source.is_some()
    }

    /// Whether packages are overridden.
    pub fn is_packages_present(&self) -> (r: bool)
        ensures
            r == self.packages is Some,
    {
        self.packages.is_some()
    }

    /// Whether the copyright file is overridden.
    pub fn is_copyright_present(&self) -> (r: bool)
        ensures
            r == self.copyright is Some,
    {
        self.copyright.is_some()
    }

    /// Whether files of the copyright file are overridden.
    pub fn is_files_present(&self) -> (r: bool)
        ensures
            r == (self.copyright matches Some(c) && c.files is Some),
    {
        match &self.copyright {
            Some(c) => c.is_files_present(),
            None => false,
        }
    }

    /// The `Files` paragraph for `filename`, when it is overridden: its
    /// notices joined into one, continued on further lines.
    pub fn file_section_for(&self, filename: &str) -> (r: Option<CFiles>)
        ensures
            match self.copyright {
                Some(c) => match c.files {
                    Some(fs) => match named(fs@, filename@) {
                        Some(f) => r matches Some(cf) && cf.files@ == filename@ && views(cf.copyright@) == seq![
                            join_spec(views(f.copyright@), "\n "@),
                        ] && cf.license@ == f.license@ && cf.comment@.len() == 0,
                        None => r is None,
                    },
                    None => r is None,
                },
                None => r is None,
            },
    {
        proof {
            reveal_strlit("");
        }
        match &self.copyright {
            Some(c) => match &c.files {
                Some(fs) => match find_named(fs, filename) {
                    Some(i) => {
                        let value = &fs[i].1;
                        let joined = join_strings(&value.copyright, "\n ");
                        let mut notice: Vec<String> = Vec::new();
                        notice.push(joined);
                        assert(views(notice@) =~= seq![join_spec(views(value.copyright@), "\n "@)]);
                        let empty = "";
                        assert(empty@ =~= Seq::<char>::empty());
                        Some(CFiles::new(filename, notice.as_slice(), value.license.as_str(), empty))
                    },
                    None => None,
                },
                None => None,
            },
            None => None,
        }
    }

    /// The files that the copyright file ignores, if given.
    pub fn copyright_ignores(&self) -> (r: Option<Vec<String>>)
        ensures
            match self.copyright {
                Some(c) => match c.ignore {
                    Some(v) => r matches Some(w) && views(w@) == views(v@),
                    None => r is None,
                },
                None => r is None,
            },
    {
        match &self.copyright {
            Some(c) => match c.ignore() {
                Some(v) => Some(clone_strings(v.as_slice())),
                None => None,
            },
            None => None,
        }
    }

    /// The summary and description of package `pkgname`, each empty where
    /// not given, when the package is overridden.
    pub fn summary_description_for(&self, pkgname: &str) -> (r: Option<(String, String)>)
        ensures
            match self.packages {
                Some(ps) => match named(ps@, pkgname@) {
                    Some(p) => r matches Some(sd) && sd.0@ == (match p.summary {
                        Some(s) => s@,
                        None => Seq::<char>::empty(),
                    }) && sd.1@ == (match p.description {
                        Some(d) => d@,
                        None => Seq::<char>::empty(),
                    }),
                    None => r is None,
                },
                None => r is None,
            },
    {
        match &self.packages {
            Some(ps) => match find_named(ps, pkgname) {
                Some(i) => {
                    let p = &ps[i].1;
                    let s = match &p.summary {
                        Some(s) => s.clone(),
                        None => String::new(),
                    };
                    let d = match &p.description {
                        Some(d) => d.clone(),
                        None => String::new(),
                    };
                    Some((s, d))
                },
                None => None,
            },
            None => None,
        }
    }

    /// The overridden policy version.
    pub fn policy_version(&self) -> (r: Option<String>)
        ensures
            opt_view(r) == (match self.source {
                Some(s) => opt_view(s.policy),
                None => None,
            }),
    {
        match &self.source {
            Some(s) => match &s.policy {
                Some(p) => Some(p.clone()),
                None => None,
            },
            None => None,
        }
    }

    /// The overridden homepage.
    pub fn homepage(&self) -> (r: Option<String>)
        ensures
            opt_view(r) == (match self.source {
                Some(s) => opt_view(s.homepage),
                None => None,
            }),
    {
        match &self.source {
            Some(s) => match &s.homepage {
                Some(p) => Some(p.clone()),
                None => None,
            },
            None => None,
        }
    }

    /// The overridden build dependencies.
    pub fn build_depends(&self) -> (r: Option<Vec<String>>)
        ensures
            match self.source {
                Some(s) => match s.build_depends {
                    Some(v) => r matches Some(w) && views(w@) == views(v@),
                    None => r is None,
                },
                None => r is None,
            },
    {
        match &self.source {
            Some(s) => match &s.build_depends {
                Some(v) => Some(clone_strings(v.as_slice())),
                None => None,
            },
            None => None,
        }
    }

    /// The overridden section.
    pub fn section(&self) -> (r: Option<String>)
        ensures
            opt_view(r) == (match self.source {
                Some(s) => opt_view(s.section),
                None => None,
            }),
    {
        match &self.source {
            Some(s) => match &s.section {
                Some(p) => Some(p.clone()),
                None => None,
            },
            None => None,
        }
    }
}

} // verus!
