//! Bringing an existing `debian/changelog` up to date with a new upload:
//! what its first entry says, and the new first entry.

use vstd::prelude::*;
use vstd::string::*;

use crate::crates::{chars_from, first_occurrence, first_occurrence_exec, lemma_occurrence_fits};
use crate::pattern::{regex_capture, regex_valid, RegexMatcher};
use crate::text::{concat2, concat3, contains_string, lines, lines_spec, push_str, starts_with, starts_with_spec, str_chars, str_eq, suffixed, suffixed_spec, views};
use crate::version_order::{all_digits, is_digit};

verus! {

/// The distribution of an entry that is not released yet.
pub const DEFAULT_DIST: &'static str = "UNRELEASED";

/// The item of a team upload.
pub const COMMENT_TEAM_UPLOAD: &'static str = "  * Team upload.";

/// The expression that recognizes the item debcargo writes for an upload.
pub const AUTOGENERATED_ITEM: &'static str = r"^  \* Package (.*) (.*) from crates.io using debcargo (.*)$";

/// The first sign-off line at or after `i`.
pub open spec fn first_signoff(ls: Seq<Seq<char>>, i: int) -> Option<int>
    decreases ls.len() - i,
{
    if i < 0 || i >= ls.len() {
        None
    } else if starts_with_spec(ls[i], " -- "@) {
        Some(i)
    } else {
        first_signoff(ls, i + 1)
    }
}

/// The version in the parentheses of a header line.
pub open spec fn header_version(h: Seq<char>) -> Option<Seq<char>> {
    match (first_occurrence(h, "("@, 0), first_occurrence(h, ")"@, 0)) {
        (Some(a), Some(b)) => if a < b {
            Some(h.subrange(a + 1, b))
        } else {
            None
        },
        _ => None,
    }
}

/// The maintainer of a sign-off line: what lies between ` -- ` and the two
/// spaces before the date.
pub open spec fn signoff_maintainer(line: Seq<char>) -> Option<Seq<char>> {
    let rest = line.skip(4);
    match first_occurrence(rest, "  "@, 0) {
        Some(m) => Some(rest.subrange(0, m)),
        None => None,
    }
}

/// The item lines of an entry whose sign-off line is at `k`: the lines
/// between its header and its sign-off, without the empty line after the
/// header and the one before the sign-off.
pub open spec fn entry_items(ls: Seq<Seq<char>>, k: int) -> Seq<Seq<char>> {
    let body = ls.subrange(1, k);
    let a = if body.len() > 0 && body[0].len() == 0 {
        body.drop_first()
    } else {
        body
    };
    if a.len() > 0 && a.last().len() == 0 {
        a.drop_last()
    } else {
        a
    }
}

/// Whether one of the first `n` lines holds `pat`.
pub open spec fn any_holds(ls: Seq<Seq<char>>, n: int, pat: Seq<char>) -> bool
    decreases n,
{
    if n <= 0 {
        false
    } else {
        any_holds(ls, n - 1, pat) || first_occurrence(ls[n - 1], pat, 0) is Some
    }
}

/// The lines from `i` on, without the empty lines they start with.
pub open spec fn lines_after(ls: Seq<Seq<char>>, i: int) -> Seq<Seq<char>>
    decreases ls.len() - i,
{
    if i < 0 || i >= ls.len() {
        Seq::empty()
    } else if ls[i].len() == 0 {
        lines_after(ls, i + 1)
    } else {
        ls.subrange(i, ls.len() as int)
    }
}

/// What the first entry of a changelog says.
pub ghost struct FirstEntry {
    pub version: Seq<char>,
    pub maintainer: Seq<char>,
    pub items: Seq<Seq<char>>,
    /// Whether the entry mentions the unreleased distribution.
    pub unreleased: bool,
    /// The lines of the older entries.
    pub rest: Seq<Seq<char>>,
}

/// The first entry of the changelog with lines `ls`: none when there are
/// no lines, an error when it does not read (no sign-off line, no version
/// in its header, no date after its maintainer).
pub open spec fn first_entry(ls: Seq<Seq<char>>) -> Result<Option<FirstEntry>, ()> {
    match first_signoff(ls, 0) {
        None => if ls.len() == 0 {
            Ok(None)
        } else {
            Err(())
        },
        Some(k) => if k == 0 {
            Err(())
        } else {
            match (header_version(ls[0]), signoff_maintainer(ls[k])) {
                (Some(v), Some(m)) => Ok(
                    Some(
                        FirstEntry {
                            version: v,
                            maintainer: m,
                            items: entry_items(ls, k),
                            unreleased: any_holds(ls, k + 1, DEFAULT_DIST@),
                            rest: lines_after(ls, k + 1),
                        },
                    ),
                ),
                _ => Err(()),
            }
        },
    }
}

/// The last place of `c` among the first `n` characters of `s`.
pub open spec fn last_index(s: Seq<char>, c: char, n: int) -> Option<int>
    decreases n,
{
    if n <= 0 {
        None
    } else if s[n - 1] == c {
        Some(n - 1)
    } else {
        last_index(s, c, n - 1)
    }
}

/// A Debian version split at its last `-`: the upstream version and the
/// revision (empty when there is no `-`).
pub open spec fn version_parts(v: Seq<char>) -> (Seq<char>, Seq<char>) {
    match last_index(v, '-', v.len() as int) {
        Some(j) => (v.subrange(0, j), v.skip(j + 1)),
        None => (v, Seq::empty()),
    }
}

/// The digit after `c`, for a digit other than `9`.
pub open spec fn next_digit(c: char) -> char {
    if c == '0' {
        '1'
    } else if c == '1' {
        '2'
    } else if c == '2' {
        '3'
    } else if c == '3' {
        '4'
    } else if c == '4' {
        '5'
    } else if c == '5' {
        '6'
    } else if c == '6' {
        '7'
    } else if c == '7' {
        '8'
    } else {
        '9'
    }
}

/// A number written in digits, plus one.
pub open spec fn inc_digits(s: Seq<char>) -> Seq<char>
    decreases s.len(),
{
    if s.len() == 0 {
        seq!['1']
    } else if s.last() == '9' {
        inc_digits(s.drop_last()).push('0')
    } else {
        s.drop_last().push(next_digit(s.last()))
    }
}

/// The next revision: a number plus one, or any other revision followed
/// by `.1`.
pub open spec fn bump_revision(s: Seq<char>) -> Seq<char> {
    if s.len() > 0 && all_digits(s) {
        inc_digits(s)
    } else {
        s + ".1"@
    }
}

/// The name of a maintainer `Name <email>`: what comes before ` <`.
pub open spec fn maintainer_name(m: Seq<char>) -> Seq<char> {
    match first_occurrence(m, " <"@, 0) {
        Some(j) => m.subrange(0, j),
        None => m,
    }
}

/// The first item at or after `i` that debcargo wrote for an upload.
pub open spec fn first_autogenerated(items: Seq<Seq<char>>, i: int) -> Option<int>
    decreases items.len() - i,
{
    if i < 0 || i >= items.len() {
        None
    } else if regex_capture(AUTOGENERATED_ITEM@, items[i], 0) is Some {
        Some(i)
    } else {
        first_autogenerated(items, i + 1)
    }
}

/// The items of an unreleased first entry with the new upload's item:
/// by the same author, it replaces the item of the earlier upload (or is
/// added); by another author, it goes first, and the other's items follow
/// under their name.
pub open spec fn merged_items(e: FirstEntry, author: Seq<char>, item: Seq<char>) -> Seq<Seq<char>> {
    if e.maintainer == author {
        match first_autogenerated(e.items, 0) {
            Some(p) => e.items.update(p, item),
            None => e.items.push(item),
        }
    } else {
        seq![item, Seq::empty(), "  [ "@ + maintainer_name(e.maintainer) + " ]"@] + e.items
    }
}

/// The text of an unreleased entry.
pub open spec fn entry_text(
    source: Seq<char>,
    version: Seq<char>,
    maintainer: Seq<char>,
    date: Seq<char>,
    items: Seq<Seq<char>>,
) -> Seq<char> {
    source + " ("@ + version + ") "@ + DEFAULT_DIST@ + "; urgency=medium\n\n"@ + suffixed_spec(items, "\n"@)
        + "\n -- "@ + maintainer + "  "@ + date + "\n"@
}

/// The older part kept, the items and the revision of the new entry.
pub open spec fn new_entry_parts(
    existing: Seq<char>,
    fe: Option<FirstEntry>,
    debian_version: Seq<char>,
    author: Seq<char>,
    item: Seq<char>,
) -> (Seq<char>, Seq<Seq<char>>, Seq<char>) {
    match fe {
        Some(e) => {
            let (ups, rev) = version_parts(e.version);
            if e.unreleased {
                (
                    suffixed_spec(e.rest, "\n"@),
                    merged_items(e, author, item),
                    if ups == debian_version {
                        rev
                    } else {
                        "1"@
                    },
                )
            } else {
                (existing, seq![item], if ups == debian_version {
                    bump_revision(rev)
                } else {
                    "1"@
                })
            }
        },
        None => (existing, seq![item], "1"@),
    }
}

/// The changelog after a new upload of `debian_version` of source package
/// `source` by `author` on `date`, with the item `item`: an unreleased
/// first entry is replaced by the new one, which takes over its items and
/// revision; otherwise the new entry goes on top with the next revision
/// (for the same upstream version) or revision `1`. An author who is not an
/// uploader gets a team-upload item. None when the first entry does not
/// read, or the expression for earlier items is refused.
pub open spec fn merged_changelog_spec(
    existing: Seq<char>,
    source: Seq<char>,
    debian_version: Seq<char>,
    author: Seq<char>,
    item: Seq<char>,
    uploaders: Seq<Seq<char>>,
    date: Seq<char>,
) -> Option<Seq<char>> {
    if !regex_valid(AUTOGENERATED_ITEM@) {
        None
    } else {
        match first_entry(lines_spec(existing)) {
            Err(()) => None,
            Ok(fe) => {
                let (old, items, rev) = new_entry_parts(existing, fe, debian_version, author, item);
                let items2 = if !uploaders.contains(author) && !items.contains(COMMENT_TEAM_UPLOAD@) {
                    seq![COMMENT_TEAM_UPLOAD@] + items
                } else {
                    items
                };
                let entry = entry_text(source, debian_version + "-"@ + rev, author, date, items2);
                Some(
                    if old.len() == 0 {
                        entry
                    } else {
                        entry + "\n"@ + old
                    },
                )
            },
        }
    }
}

/// A changelog whose first entry is released (or that has no entry) is
/// kept whole below the new entry.
pub proof fn lemma_released_changelog_kept(
    existing: Seq<char>,
    source: Seq<char>,
    debian_version: Seq<char>,
    author: Seq<char>,
    item: Seq<char>,
    uploaders: Seq<Seq<char>>,
    date: Seq<char>,
)
    requires
        regex_valid(AUTOGENERATED_ITEM@),
        first_entry(lines_spec(existing)) matches Ok(fe) && (fe matches Some(e) ==> !e.unreleased),
    ensures
        merged_changelog_spec(existing, source, debian_version, author, item, uploaders, date) matches Some(t)
            && existing.len() <= t.len() && t.subrange(t.len() - existing.len(), t.len() as int) == existing,
{
    let t = merged_changelog_spec(existing, source, debian_version, author, item, uploaders, date)->Some_0;
    assert(t.subrange(t.len() - existing.len(), t.len() as int) =~= existing);
}

/// An unreleased first entry is written over: the older entries are kept
/// below the new one, and the new one goes out with the earlier entry's
/// revision when the upstream version is unchanged.
pub proof fn lemma_unreleased_entry_replaced(
    existing: Seq<char>,
    source: Seq<char>,
    debian_version: Seq<char>,
    author: Seq<char>,
    item: Seq<char>,
    uploaders: Seq<Seq<char>>,
    date: Seq<char>,
)
    requires
        regex_valid(AUTOGENERATED_ITEM@),
        first_entry(lines_spec(existing)) matches Ok(Some(e)) && e.unreleased,
    ensures
        ({
            let e = first_entry(lines_spec(existing))->Ok_0->Some_0;
            let older = suffixed_spec(e.rest, "\n"@);
            let (ups, rev) = version_parts(e.version);
            merged_changelog_spec(existing, source, debian_version, author, item, uploaders, date) matches Some(t)
                && older.len() <= t.len() && t.subrange(t.len() - older.len(), t.len() as int) == older
                && (ups == debian_version ==> t.subrange(0, (source + " ("@ + debian_version + "-"@ + rev).len() as int)
                    == source + " ("@ + debian_version + "-"@ + rev)
        }),
{
    let e = first_entry(lines_spec(existing))->Ok_0->Some_0;
    let older = suffixed_spec(e.rest, "\n"@);
    let t = merged_changelog_spec(existing, source, debian_version, author, item, uploaders, date)->Some_0;
    assert(t.subrange(t.len() - older.len(), t.len() as int) =~= older);
    let (ups, rev) = version_parts(e.version);
    let head = source + " ("@ + debian_version + "-"@ + rev;
    if ups == debian_version {
        assert(t.subrange(0, head.len() as int) =~= head);
    }
}

/// The new entry holds the team-upload item at most as often as the merged
/// items, and at most once when they hold it at most once: an author who is
/// not an uploader gets it put first only when the merged items lack it;
/// otherwise the merged items are written as they are.
pub proof fn lemma_team_upload_once(
    existing: Seq<char>,
    source: Seq<char>,
    debian_version: Seq<char>,
    author: Seq<char>,
    item: Seq<char>,
    uploaders: Seq<Seq<char>>,
    date: Seq<char>,
)
    requires
        regex_valid(AUTOGENERATED_ITEM@),
        first_entry(lines_spec(existing)) is Ok,
    ensures
        ({
            let fe = first_entry(lines_spec(existing))->Ok_0;
            let (old, items, rev) = new_entry_parts(existing, fe, debian_version, author, item);
            exists|items2: Seq<Seq<char>>| {
                let entry = entry_text(source, debian_version + "-"@ + rev, author, date, items2);
                &&& merged_changelog_spec(existing, source, debian_version, author, item, uploaders, date)
                    == Some(if old.len() == 0 { entry } else { entry + "\n"@ + old })
                &&& (items2 == items || (items2 == seq![COMMENT_TEAM_UPLOAD@] + items
                    && !items.contains(COMMENT_TEAM_UPLOAD@) && !uploaders.contains(author)))
                &&& (#[trigger] items2.contains(COMMENT_TEAM_UPLOAD@) <==> items.contains(COMMENT_TEAM_UPLOAD@)
                    || !uploaders.contains(author))
            }
        }),
{
    let fe = first_entry(lines_spec(existing))->Ok_0;
    let (old, items, rev) = new_entry_parts(existing, fe, debian_version, author, item);
    let c = COMMENT_TEAM_UPLOAD@;
    let items2 = if !uploaders.contains(author) && !items.contains(c) {
        seq![c] + items
    } else {
        items
    };
    if items2 != items {
        assert(items2[0] == c);
        assert(items2.contains(c));
        assert forall|x: Seq<char>| items.contains(x) implies items2.contains(x) by {
            let j = choose|j: int| 0 <= j < items.len() && items[j] == x;
            assert(items2[j + 1] == x);
        }
        assert forall|x: Seq<char>| items2.contains(x) && x != c implies items.contains(x) by {
            let j = choose|j: int| 0 <= j < items2.len() && items2[j] == x;
            assert(items[j - 1] == x);
        }
    }
    assert(items2.contains(c) <==> items.contains(c) || !uploaders.contains(author));
}

proof fn lemma_first_signoff(ls: Seq<Seq<char>>, i: int, k: int)
    requires
        first_signoff(ls, i) == Some(k),
    ensures
        i <= k < ls.len(),
        starts_with_spec(ls[k], " -- "@),
    decreases ls.len() - i,
{
    if 0 <= i < ls.len() && !starts_with_spec(ls[i], " -- "@) {
        lemma_first_signoff(ls, i + 1, k);
    }
}

fn first_signoff_exec(ls: &Vec<String>) -> (r: Option<usize>)
    ensures
        match r {
            Some(k) => first_signoff(views(ls@), 0) == Some(k as int) && k < ls@.len(),
            None => first_signoff(views(ls@), 0) is None,
        },
{
    let ghost lv = views(ls@);
    let mut i: usize = 0;
    while i < ls.len()
        invariant
            i <= ls@.len(),
            lv == views(ls@),
            first_signoff(lv, 0) == first_signoff(lv, i as int),
        decreases ls.len() - i,
    {
        assert(lv[i as int] == ls@[i as int]@);
        if starts_with(ls[i].as_str(), " -- ") {
            return Some(i);
        }
        i = i + 1;
    }
    None
}

fn header_version_exec(h: &str) -> (r: Option<String>)
    ensures
        crate::config::opt_view(r) == header_version(h@),
{
    proof {
        reveal_strlit("(");
        reveal_strlit(")");
    }
    let cs = str_chars(h);
    match (first_occurrence_exec(&cs, "("), first_occurrence_exec(&cs, ")")) {
        (Some(a), Some(b)) => if a < b {
            Some(chars_from(&cs, a + 1, b))
        } else {
            None
        },
        _ => None,
    }
}

fn signoff_maintainer_exec(line: &str) -> (r: Option<String>)
    requires
        starts_with_spec(line@, " -- "@),
    ensures
        crate::config::opt_view(r) == signoff_maintainer(line@),
{
    proof {
        reveal_strlit(" -- ");
        reveal_strlit("  ");
    }
    let cs = str_chars(line);
    let rest_s = chars_from(&cs, 4, cs.len());
    let rest = str_chars(rest_s.as_str());
    match first_occurrence_exec(&rest, "  ") {
        None => None,
        Some(m) => Some(chars_from(&rest, 0, m)),
    }
}

fn copy_lines(ls: &Vec<String>, a: usize, b: usize) -> (r: Vec<String>)
    requires
        a <= b <= ls@.len(),
    ensures
        views(r@) == views(ls@).subrange(a as int, b as int),
{
    let mut out: Vec<String> = Vec::new();
    let mut i: usize = a;
    while i < b
        invariant
            a <= i <= b,
            b <= ls@.len(),
            views(out@) == views(ls@).subrange(a as int, i as int),
        decreases b - i,
    {
        let ghost prev = views(out@);
        out.push(ls[i].clone());
        assert(views(out@) =~= prev.push(ls@[i as int]@));
        assert(views(ls@).subrange(a as int, i + 1) =~= views(ls@).subrange(a as int, i as int).push(ls@[i as int]@));
        i = i + 1;
    }
    out
}

fn entry_items_exec(ls: &Vec<String>, k: usize) -> (r: Vec<String>)
    requires
        1 <= k <= ls@.len(),
    ensures
        views(r@) == entry_items(views(ls@), k as int),
{
    let ghost lv = views(ls@);
    let mut s: usize = 1;
    if s < k && ls[1].as_str().is_empty() {
        s = 2;
    }
    let mut e: usize = k;
    if e > s && ls[k - 1].as_str().is_empty() {
        e = k - 1;
    }
    let r = copy_lines(ls, s, e);
    proof {
        let body = lv.subrange(1, k as int);
        if body.len() > 0 {
            assert(body[0] == ls@[1]@);
        }
        let a = if body.len() > 0 && body[0].len() == 0 {
            body.drop_first()
        } else {
            body
        };
        assert(a =~= lv.subrange(s as int, k as int));
        if a.len() > 0 {
            assert(a.last() == ls@[k - 1]@);
        }
        assert(lv.subrange(s as int, e as int) =~= (if a.len() > 0 && a.last().len() == 0 {
            a.drop_last()
        } else {
            a
        }));
    }
    r
}

fn any_holds_exec(ls: &Vec<String>, n: usize, pat: &str) -> (r: bool)
    requires
        n <= ls@.len(),
        pat@.len() > 0,
    ensures
        r == any_holds(views(ls@), n as int, pat@),
{
    let ghost lv = views(ls@);
    let mut found = false;
    let mut i: usize = 0;
    while i < n
        invariant
            i <= n <= ls@.len(),
            pat@.len() > 0,
            lv == views(ls@),
            found == any_holds(lv, i as int, pat@),
        decreases n - i,
    {
        let cs = str_chars(ls[i].as_str());
        assert(lv[i as int] == ls@[i as int]@);
        if first_occurrence_exec(&cs, pat).is_some() {
            found = true;
        }
        i = i + 1;
    }
    found
}

fn lines_after_exec(ls: &Vec<String>, i: usize) -> (r: Vec<String>)
    ensures
        views(r@) == lines_after(views(ls@), i as int),
{
    let ghost lv = views(ls@);
    let mut j: usize = i;
    while j < ls.len() && ls[j].as_str().is_empty()
        invariant
            i <= j,
            lv == views(ls@),
            lines_after(lv, i as int) == lines_after(lv, j as int),
        decreases ls.len() - j,
    {
        assert(lv[j as int] == ls@[j as int]@);
        j = j + 1;
    }
    if j < ls.len() {
        assert(lv[j as int] == ls@[j as int]@);
        copy_lines(ls, j, ls.len())
    } else {
        Vec::new()
    }
}

fn version_parts_exec(v: &str) -> (r: (String, String))
    ensures
        (r.0@, r.1@) == version_parts(v@),
{
    let cs = str_chars(v);
    let mut n: usize = cs.len();
    while n > 0 && cs[n - 1] != '-'
        invariant
            n <= cs@.len(),
            cs@ == v@,
            last_index(v@, '-', v@.len() as int) == last_index(v@, '-', n as int),
        decreases n,
    {
        n = n - 1;
    }
    if n == 0 {
        (String::from_str(v), String::new())
    } else {
        let a = chars_from(&cs, 0, n - 1);
        let b = chars_from(&cs, n, cs.len());
        assert(v@.skip(n as int) =~= cs@.subrange(n as int, cs@.len() as int));
        (a, b)
    }
}

fn next_digit_exec(c: char) -> (r: char)
    ensures
        r == next_digit(c),
{
    if c == '0' {
        '1'
    } else if c == '1' {
        '2'
    } else if c == '2' {
        '3'
    } else if c == '3' {
        '4'
    } else if c == '4' {
        '5'
    } else if c == '5' {
        '6'
    } else if c == '6' {
        '7'
    } else if c == '7' {
        '8'
    } else {
        '9'
    }
}

fn inc_prefix(cs: &Vec<char>, n: usize) -> (r: Vec<char>)
    requires
        n <= cs@.len(),
    ensures
        r@ == inc_digits(cs@.subrange(0, n as int)),
    decreases n,
{
    if n == 0 {
        let mut r: Vec<char> = Vec::new();
        r.push('1');
        assert(r@ =~= seq!['1']);
        return r;
    }
    let ghost p = cs@.subrange(0, n as int);
    assert(p.drop_last() =~= cs@.subrange(0, n - 1));
    assert(p.last() == cs@[n - 1]);
    if cs[n - 1] == '9' {
        let mut r = inc_prefix(cs, n - 1);
        r.push('0');
        r
    } else {
        let mut r: Vec<char> = Vec::new();
        let mut i: usize = 0;
        while i < n - 1
            invariant
                i <= n - 1,
                n <= cs@.len(),
                r@ == cs@.subrange(0, i as int),
            decreases n - 1 - i,
        {
            r.push(cs[i]);
            assert(cs@.subrange(0, i + 1) =~= cs@.subrange(0, i as int).push(cs@[i as int]));
            i = i + 1;
        }
        r.push(next_digit_exec(cs[n - 1]));
        r
    }
}

fn bump_revision_exec(s: &str) -> (r: String)
    ensures
        r@ == bump_revision(s@),
{
    let cs = str_chars(s);
    let mut digits = cs.len() > 0;
    let mut i: usize = 0;
    while i < cs.len()
        invariant
            i <= cs@.len(),
            cs@ == s@,
            digits == (cs@.len() > 0 && forall|j: int| 0 <= j < i ==> is_digit(#[trigger] cs@[j])),
        decreases cs.len() - i,
    {
        let u = cs[i] as u32;
        if !(48 <= u && u <= 57) {
            digits = false;
        }
        i = i + 1;
    }
    if digits {
        assert(cs@.subrange(0, cs@.len() as int) =~= cs@);
        crate::text::string_of(&inc_prefix(&cs, cs.len()))
    } else {
        concat2(s, ".1")
    }
}

fn maintainer_name_exec(m: &str) -> (r: String)
    ensures
        r@ == maintainer_name(m@),
{
    proof {
        reveal_strlit(" <");
    }
    let cs = str_chars(m);
    match first_occurrence_exec(&cs, " <") {
        Some(j) => chars_from(&cs, 0, j),
        None => String::from_str(m),
    }
}

fn first_autogenerated_exec(items: &Vec<String>, re: &RegexMatcher) -> (r: Option<usize>)
    requires
        re.source() == AUTOGENERATED_ITEM@,
    ensures
        match r {
            Some(p) => first_autogenerated(views(items@), 0) == Some(p as int) && p < items@.len(),
            None => first_autogenerated(views(items@), 0) is None,
        },
{
    let ghost lv = views(items@);
    let mut i: usize = 0;
    while i < items.len()
        invariant
            i <= items@.len(),
            lv == views(items@),
            re.source() == AUTOGENERATED_ITEM@,
            first_autogenerated(lv, 0) == first_autogenerated(lv, i as int),
        decreases items.len() - i,
    {
        assert(lv[i as int] == items@[i as int]@);
        if re.capture(items[i].as_str(), 0).is_some() {
            return Some(i);
        }
        i = i + 1;
    }
    None
}

/// What the first entry of a changelog says, as read.
struct ParsedEntry {
    version: String,
    maintainer: String,
    items: Vec<String>,
    unreleased: bool,
    rest: Vec<String>,
}

impl ParsedEntry {
    spec fn view_entry(&self) -> FirstEntry {
        FirstEntry {
            version: self.version@,
            maintainer: self.maintainer@,
            items: views(self.items@),
            unreleased: self.unreleased,
            rest: views(self.rest@),
        }
    }
}

spec fn parsed_view(r: Result<Option<ParsedEntry>, ()>) -> Result<Option<FirstEntry>, ()> {
    match r {
        Err(()) => Err(()),
        Ok(None) => Ok(None),
        Ok(Some(e)) => Ok(Some(e.view_entry())),
    }
}

fn parse_first_entry(ls: &Vec<String>) -> (r: Result<Option<ParsedEntry>, ()>)
    ensures
        parsed_view(r) == first_entry(views(ls@)),
{
    proof {
        reveal_strlit("UNRELEASED");
    }
    let ghost lv = views(ls@);
    let k = match first_signoff_exec(ls) {
        None => {
            if ls.len() == 0 {
                return Ok(None);
            } else {
                return Err(());
            }
        },
        Some(k) => k,
    };
    if k == 0 {
        return Err(());
    }
    assert(lv[0] == ls@[0]@);
    assert(lv[k as int] == ls@[k as int]@);
    proof {
        lemma_first_signoff(lv, 0, k as int);
    }
    let version = match header_version_exec(ls[0].as_str()) {
        Some(v) => v,
        None => {
            return Err(());
        },
    };
    let maintainer = match signoff_maintainer_exec(ls[k].as_str()) {
        Some(m) => m,
        None => {
            return Err(());
        },
    };
    assert(k < ls.len());
    let items = entry_items_exec(ls, k);
    let unreleased = any_holds_exec(ls, k + 1, DEFAULT_DIST);
    let rest = lines_after_exec(ls, k + 1);
    Ok(Some(ParsedEntry { version, maintainer, items, unreleased, rest }))
}

fn merged_items_exec(e: &ParsedEntry, author: &str, item: &str, re: &RegexMatcher) -> (r: Vec<String>)
    requires
        re.source() == AUTOGENERATED_ITEM@,
    ensures
        views(r@) == merged_items(e.view_entry(), author@, item@),
{
    if str_eq(e.maintainer.as_str(), author) {
        let mut v = crate::text::clone_strings(e.items.as_slice());
        match first_autogenerated_exec(&e.items, re) {
            Some(p) => {
                let ghost before = views(v@);
                v.set(p, String::from_str(item));
                assert(views(v@) =~= before.update(p as int, item@));
            },
            None => {
                let ghost before = views(v@);
                v.push(String::from_str(item));
                assert(views(v@) =~= before.push(item@));
            },
        }
        v
    } else {
        let mut v: Vec<String> = Vec::new();
        v.push(String::from_str(item));
        v.push(String::new());
        let name = maintainer_name_exec(e.maintainer.as_str());
        v.push(concat3("  [ ", name.as_str(), " ]"));
        let ghost head = views(v@);
        crate::text::extend_strings(&mut v, &e.items);
        assert(head =~= seq![item@, Seq::<char>::empty(), "  [ "@ + maintainer_name(e.maintainer@) + " ]"@]);
        v
    }
}

/// The changelog after a new upload: see `merged_changelog_spec`. The date
/// is an RFC 2822 date; `item` is a whole item line.
pub fn merged_changelog(
    existing: &str,
    source: &str,
    debian_version: &str,
    author: &str,
    item: &str,
    uploaders: &Vec<String>,
    date: &str,
) -> (r: Option<String>)
    ensures
        crate::config::opt_view(r) == merged_changelog_spec(
            existing@,
            source@,
            debian_version@,
            author@,
            item@,
            views(uploaders@),
            date@,
        ),
{
    let re = match RegexMatcher::new(AUTOGENERATED_ITEM) {
        Some(re) => re,
        None => {
            return None;
        },
    };
    let ls = lines(existing);
    let fe = match parse_first_entry(&ls) {
        Err(()) => {
            return None;
        },
        Ok(fe) => fe,
    };
    let ghost fev = match parsed_view(Ok::<Option<ParsedEntry>, ()>(fe)) {
        Ok(x) => x,
        Err(_) => None,
    };
    let (old, items, rev): (String, Vec<String>, String) = match &fe {
        Some(e) => {
            let (ups, rv) = version_parts_exec(e.version.as_str());
            if e.unreleased {
                let r2 = if str_eq(ups.as_str(), debian_version) {
                    rv
                } else {
                    String::from_str("1")
                };
                (suffixed(&e.rest, "\n"), merged_items_exec(e, author, item, &re), r2)
            } else {
                let r2 = if str_eq(ups.as_str(), debian_version) {
                    bump_revision_exec(rv.as_str())
                } else {
                    String::from_str("1")
                };
                let mut one: Vec<String> = Vec::new();
                one.push(String::from_str(item));
                assert(views(one@) =~= seq![item@]);
                (String::from_str(existing), one, r2)
            }
        },
        None => {
            let mut one: Vec<String> = Vec::new();
            one.push(String::from_str(item));
            assert(views(one@) =~= seq![item@]);
            (String::from_str(existing), one, String::from_str("1"))
        },
    };
    assert((old@, views(items@), rev@) == new_entry_parts(existing@, fev, debian_version@, author@, item@));
    let mut items2 = items;
    if !contains_string(uploaders.as_slice(), author) && !contains_string(items2.as_slice(), COMMENT_TEAM_UPLOAD) {
        let mut v: Vec<String> = Vec::new();
        v.push(String::from_str(COMMENT_TEAM_UPLOAD));
        let ghost head = views(v@);
        crate::text::extend_strings(&mut v, &items2);
        assert(head =~= seq![COMMENT_TEAM_UPLOAD@]);
        items2 = v;
    }
    let version = concat3(debian_version, "-", rev.as_str());
    let mut t = String::from_str(source);
    push_str(&mut t, " (");
    push_str(&mut t, version.as_str());
    push_str(&mut t, ") ");
    push_str(&mut t, DEFAULT_DIST);
    push_str(&mut t, "; urgency=medium\n\n");
    push_str(&mut t, suffixed(&items2, "\n").as_str());
    push_str(&mut t, "\n -- ");
    push_str(&mut t, author);
    push_str(&mut t, "  ");
    push_str(&mut t, date);
    push_str(&mut t, "\n");
    if old.as_str().is_empty() {
        Some(t)
    } else {
        push_str(&mut t, "\n");
        push_str(&mut t, old.as_str());
        Some(t)
    }
}

} // verus!
