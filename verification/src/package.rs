//! The stages of packaging a crate, in order, and the report that follows
//! them.

use vstd::prelude::*;
use vstd::string::*;

use crate::config::opt_view;
use crate::paths::{hint_file_for, hint_partner, join, parent, path_join, path_parent, rel_p, relative_path};
use crate::text::{concat2, concat3, views};

verus! {

/// What names the crate to package.
pub struct PackageInitArgs {
    /// Name of the crate to package.
    pub crate_name: String,
    /// Version of the crate to package; may contain dependency operators.
    /// If empty or absent, the latest version.
    pub version: Option<String>,
    /// TOML file providing package-specific options.
    pub config: Option<String>,
}

/// Where to extract the crate.
pub struct PackageExtractArgs {
    /// Output directory for the package. The orig tarball is named according
    /// to Debian conventions in the parent directory of this directory.
    pub directory: Option<String>,
}

/// How to finish the package.
pub struct PackageFinishArgs {
    /// Assume the changelog is already bumped, and leave it alone.
    pub changelog_ready: bool,
    /// Guess extra values for d/copyright. Might be slow.
    pub copyright_guess_harder: bool,
    /// Don't write back hint files or d/changelog to the source overlay
    /// directory.
    pub no_overlay_write_back: bool,
}

/// How far the packaging of a crate has come.
pub struct PackageProgress {
    /// The directory the crate was extracted to.
    pub output_dir: Option<String>,
    /// Whether the extracted sources differ from the crate.
    pub source_modified: Option<bool>,
    /// Whether the overlay and patches were applied.
    pub overrides_applied: bool,
    /// The upstream tarball, once written.
    pub orig_tarball: Option<String>,
}

/// The directory to extract to: the one asked for, else the package's.
pub open spec fn output_dir_spec(directory: Option<Seq<char>>, package_source_dir: Seq<char>) -> Seq<char> {
    match directory {
        Some(d) => d,
        None => package_source_dir,
    }
}

impl PackageProgress {
    /// Nothing done yet.
    pub fn new() -> (r: PackageProgress)
        ensures
            r.output_dir is None,
            r.source_modified is None,
            !r.overrides_applied,
            r.orig_tarball is None,
    {
        PackageProgress { output_dir: None, source_modified: None, overrides_applied: false, orig_tarball: None }
    }

    /// The crate was extracted, to `directory` if one was asked for, else
    /// to the package's source directory; the directory is returned.
    pub fn extracted(&mut self, directory: Option<String>, package_source_dir: &str, source_modified: bool) -> (r: String)
        requires
            old(self).output_dir is None,
            old(self).source_modified is None,
        ensures
            r@ == output_dir_spec(opt_view(directory), package_source_dir@),
            opt_view(final(self).output_dir) == Some(r@),
            final(self).source_modified == Some(source_modified),
            final(self).overrides_applied == old(self).overrides_applied,
            final(self).orig_tarball == old(self).orig_tarball,
    {
        let dir = match directory {
            Some(d) => d,
            None => String::from_str(package_source_dir),
        };
        self.output_dir = Some(dir.clone());
        self.source_modified = Some(source_modified);
        dir
    }

    /// The overlay and patches were applied.
    pub fn applied_overrides(&mut self)
        requires
            old(self).output_dir is Some,
            !old(self).overrides_applied,
        ensures
            final(self).overrides_applied,
            final(self).output_dir == old(self).output_dir,
            final(self).source_modified == old(self).source_modified,
            final(self).orig_tarball == old(self).orig_tarball,
    {
        self.overrides_applied = true;
    }

    /// The upstream tarball was written, at `orig_tarball`.
    pub fn generated(&mut self, orig_tarball: String)
        requires
            old(self).orig_tarball is None,
            old(self).output_dir is Some,
            old(self).source_modified is Some,
            old(self).overrides_applied,
        ensures
            final(self).orig_tarball == Some(orig_tarball),
            final(self).output_dir == old(self).output_dir,
            final(self).source_modified == old(self).source_modified,
            final(self).overrides_applied,
    {
        self.orig_tarball = Some(orig_tarball);
    }
}

/// Where the upstream tarball goes: beside the output directory.
pub open spec fn orig_tarball_spec(output_dir: Seq<char>, name: Seq<char>) -> Option<Seq<char>> {
    match path_parent(output_dir) {
        Some(p) => Some(path_join(p, name)),
        None => None,
    }
}

/// Where the upstream tarball goes: beside the output directory; none when
/// the output directory has no parent.
pub fn orig_tarball_path(output_dir: &str, name: &str) -> (r: Option<String>)
    ensures
        opt_view(r) == orig_tarball_spec(output_dir@, name@),
{
    match parent(output_dir) {
        Some(p) => Some(join(p.as_str(), name)),
        None => None,
    }
}

/// The line that reports one file with a FIXME, marked as a hint file or not.
pub open spec fn fixme_line(f: Seq<char>, curdir: Seq<char>) -> Seq<char> {
    if hint_partner(f) is Some {
        "\t(•) "@ + relative_path(f, curdir)
    } else {
        "\t •  "@ + relative_path(f, curdir)
    }
}

/// The warnings after packaging: the files that still hold a FIXME, and
/// how to fix them, by configuration file and overlay directory.
pub open spec fn fixme_report_spec(
    fixmes: Seq<Seq<char>>,
    curdir: Seq<char>,
    config_path: Option<Seq<char>>,
    overlay: Option<Seq<char>>,
) -> Seq<Seq<char>> {
    if fixmes.len() == 0 {
        Seq::empty()
    } else {
        seq!["FIXME found in the following files."@] + fixmes.map_values(|f: Seq<char>| fixme_line(f, curdir)) + seq![
            Seq::<char>::empty(),
            "To fix, try combinations of the following: "@,
        ] + (match config_path {
            None => seq!["\t •  Write a config file and use it with --config"@],
            Some(c) => seq!["\t •  Add or edit overrides in your config file:"@, "\t    "@ + relative_path(c, curdir)],
        }) + (match overlay {
            None => seq![
                "\t •  Create an overlay directory and add it to your config file with overlay = \"/path/to/overlay\""@,
            ],
            Some(p) => seq!["\t •  Add or edit files in your overlay directory:"@, "\t    "@ + relative_path(p, curdir)],
        })
    }
}

/// The warnings after packaging; paths are shown relative to `curdir`.
pub fn fixme_report(fixmes: &Vec<String>, curdir: &str, config_path: Option<&str>, overlay: Option<&str>) -> (r: Vec<String>)
    ensures
        views(r@) == fixme_report_spec(
            views(fixmes@),
            curdir@,
            match config_path {
                Some(c) => Some(c@),
                None => None,
            },
            match overlay {
                Some(p) => Some(p@),
                None => None,
            },
        ),
{
    proof {
        reveal_strlit("");
    }
    let mut out: Vec<String> = Vec::new();
    if fixmes.len() == 0 {
        assert(views(out@) =~= Seq::<Seq<char>>::empty());
        return out;
    }
    out.push(String::from_str("FIXME found in the following files."));
    let ghost head = views(out@);
    let ghost fv = views(fixmes@);
    let mut i: usize = 0;
    while i < fixmes.len()
        invariant
            i <= fixmes@.len(),
            fv == views(fixmes@),
            views(out@) == head + fv.subrange(0, i as int).map_values(|f: Seq<char>| fixme_line(f, curdir@)),
        decreases fixmes.len() - i,
    {
        let f = fixmes[i].as_str();
        let rel = rel_p(f, curdir);
        let line = match hint_file_for(f) {
            Some(_) => concat2("\t(•) ", rel.as_str()),
            None => concat2("\t •  ", rel.as_str()),
        };
        let ghost prev = views(out@);
        out.push(line);
        proof {
            assert(views(out@) =~= prev.push(line@));
            assert(fv.subrange(0, i + 1).map_values(|f: Seq<char>| fixme_line(f, curdir@)) =~= fv.subrange(0, i as int).map_values(
                |f: Seq<char>| fixme_line(f, curdir@),
            ).push(fixme_line(fv[i as int], curdir@)));
        }
        i = i + 1;
    }
    assert(fv.subrange(0, fv.len() as int) =~= fv);
    let ghost mid = views(out@);
    out.push(String::new());
    out.push(String::from_str("To fix, try combinations of the following: "));
    let ghost mid2 = views(out@);
    assert(mid2 =~= mid + seq![Seq::<char>::empty(), "To fix, try combinations of the following: "@]);
    match config_path {
        None => {
            out.push(String::from_str("\t •  Write a config file and use it with --config"));
        },
        Some(c) => {
            out.push(String::from_str("\t •  Add or edit overrides in your config file:"));
            out.push(concat2("\t    ", rel_p(c, curdir).as_str()));
        },
    }
    let ghost mid3 = views(out@);
    match overlay {
        None => {
            out.push(
                String::from_str(
                    "\t •  Create an overlay directory and add it to your config file with overlay = \"/path/to/overlay\"",
                ),
            );
        },
        Some(p) => {
            out.push(String::from_str("\t •  Add or edit files in your overlay directory:"));
            out.push(concat2("\t    ", rel_p(p, curdir).as_str()));
        },
    }
    proof {
        let cp = match config_path {
            Some(c) => Some(c@),
            None => None,
        };
        let ov = match overlay {
            Some(p) => Some(p@),
            None => None,
        };
        let cfg_lines = match cp {
            None => seq!["\t •  Write a config file and use it with --config"@],
            Some(c) => seq!["\t •  Add or edit overrides in your config file:"@, "\t    "@ + relative_path(c, curdir@)],
        };
        let ov_lines = match ov {
            None => seq![
                "\t •  Create an overlay directory and add it to your config file with overlay = \"/path/to/overlay\""@,
            ],
            Some(p) => seq!["\t •  Add or edit files in your overlay directory:"@, "\t    "@ + relative_path(p, curdir@)],
        };
        assert(mid3 =~= mid2 + cfg_lines);
        assert(views(out@) =~= mid3 + ov_lines);
    }
    out
}

/// The report of where the package was written.
pub fn package_report(output_dir: &str, orig_tarball: &str, curdir: &str) -> (r: String)
    ensures
        r@ == "Package Source: "@ + relative_path(output_dir@, curdir@) + "\nOriginal Tarball for package: "@
            + relative_path(orig_tarball@, curdir@) + "\n"@,
{
    let a = concat3("Package Source: ", rel_p(output_dir, curdir).as_str(), "\nOriginal Tarball for package: ");
    concat3(a.as_str(), rel_p(orig_tarball, curdir).as_str(), "\n")
}

} // verus!
