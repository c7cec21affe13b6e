# debcargo

Packages Rust crates for Debian: it names the source and binary packages,
translates Cargo dependencies into Debian dependency clauses, and writes the
files of `debian/` (control, copyright, changelog, rules, watch, tests).

The library in `src/` holds the decisions and the texts that are written,
each with a contract proved by Verus:

- `control`, `changelog`, `copyright`, `debian`: the package names and the
  text of each generated file;
- `changelog_merge`: what the first entry of an existing changelog says, and
  the changelog with the new upload's entry on top;
- `license_texts`: the license texts that the copyright file quotes;
- `dependency`: version requirements as version ranges, and ranges as Debian
  or-clauses;
- `crates`: what a crate's manifest says of its targets, features and
  dependencies, and which of its files go into the upstream tarball;
- `build_order`, `graph`: what each package needs built first, and the build
  order of a crate's dependencies;
- `config`, `overrides`, `package`, `paths`, `pattern`, `text`: the
  configuration, the packaging stages and the helpers they share;
- `version_order`: how Debian orders upstream versions.

`app/` is the command-line program around it: argument parsing, Cargo's
registry, git, archives, files, the clock and the environment. It reads
and writes, and hands what it read to the library.
