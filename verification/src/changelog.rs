//! A `debian/changelog` entry.

use vstd::prelude::*;
use vstd::string::*;

use crate::crates::{chars_from, first_occurrence, first_occurrence_exec, lemma_occurrence_fits};
use crate::text::{
    clone_strings, fill, lines, lines_spec, push_str, starts_with, starts_with_spec, str_chars, textwrap_fill, trim,
    trim_spec, views,
};
use chrono::Datelike;

verus! {

/// One entry of a Debian changelog.
pub struct Changelog {
    pub source: String,
    pub version: String,
    pub distribution: String,
    pub urgency: String,
    pub maintainer: String,
    pub entries: Vec<String>,
}

/// The item lines of an entry: each item wrapped at 79 columns and marked
/// with `  * `.
pub open spec fn items_text(items: Seq<Seq<char>>) -> Seq<char>
    decreases items.len(),
{
    if items.len() == 0 {
        Seq::empty()
    } else {
        items_text(items.drop_last()) + "  * "@ + textwrap_fill(items.last(), 79) + "\n"@
    }
}

/// The text of a changelog entry signed on `date`.
pub open spec fn changelog_text(c: Changelog, date: Seq<char>) -> Seq<char> {
    c.source@ + " ("@ + c.version@ + ") "@ + c.distribution@ + "; urgency="@ + c.urgency@ + "\n\n"@
        + items_text(views(c.entries@)) + "\n -- "@ + c.maintainer@ + "  "@ + date + "\n\n"@
}

impl Changelog {
    /// An entry of source package `src` at `version`.
    pub fn new(
        src: &str,
        version: &str,
        distribution: &str,
        urgency: &str,
        maintainer: &str,
        entries: &[String],
    ) -> (r: Changelog)
        ensures
            r.source@ == src@,
            r.version@ == version@,
            r.distribution@ == distribution@,
            r.urgency@ == urgency@,
            r.maintainer@ == maintainer@,
            views(r.entries@) == views(entries@),
    {
        Changelog {
            source: String::from_str(src),
            version: String::from_str(version),
            distribution: String::from_str(distribution),
            urgency: String::from_str(urgency),
            maintainer: String::from_str(maintainer),
            entries: clone_strings(entries),
        }
    }

    /// The text of the entry, signed on `date` (an RFC 2822 date).
    pub fn to_string(&self, date: &str) -> (r: String)
        ensures
            r@ == changelog_text(*self, date@),
    {
        let mut s = String::from_str(self.source.as_str());
        push_str(&mut s, " (");
        push_str(&mut s, self.version.as_str());
        push_str(&mut s, ") ");
        push_str(&mut s, self.distribution.as_str());
        push_str(&mut s, "; urgency=");
        push_str(&mut s, self.urgency.as_str());
        push_str(&mut s, "\n\n");
        let ghost head = s@;
        let ghost items = views(self.entries@);
        let mut i: usize = 0;
        while i < self.entries.len()
            invariant
                i <= self.entries@.len(),
                items == views(self.entries@),
                s@ == head + items_text(items.subrange(0, i as int)),
            decreases self.entries.len() - i,
        {
            assert(items.subrange(0, i + 1).drop_last() =~= items.subrange(0, i as int));
            push_str(&mut s, "  * ");
            push_str(&mut s, fill(self.entries[i].as_str(), 79).as_str());
            push_str(&mut s, "\n");
            i = i + 1;
        }
        assert(items.subrange(0, items.len() as int) =~= items);
        push_str(&mut s, "\n -- ");
        push_str(&mut s, self.maintainer.as_str());
        push_str(&mut s, "  ");
        push_str(&mut s, date);
        push_str(&mut s, "\n\n");
        s
    }
}

/// The year of an RFC 2822 date, as `chrono::DateTime::parse_from_rfc2822`
/// reads it; none when it does not read as one.
pub uninterp spec fn rfc2822_year_of(s: Seq<char>) -> Option<int>;

/// `chrono::DateTime::parse_from_rfc2822`, then `Datelike::year`.
#[verifier::external_body]
fn rfc2822_year(s: &str) -> (r: Option<i32>)
    ensures
        match r {
            Some(y) => rfc2822_year_of(s@) == Some(y as int),
            None => rfc2822_year_of(s@) is None,
        },
{
    chrono::DateTime::parse_from_rfc2822(s).ok().map(|d| d.year())
}

/// The date of a sign-off line ` -- <maintainer>  <date>`: what follows
/// the first two spaces after ` -- `, trimmed; none when there are none.
pub open spec fn signoff_date(line: Seq<char>) -> Option<Seq<char>> {
    let rest = line.skip(4);
    match first_occurrence(rest, "  "@, 0) {
        Some(k) => Some(trim_spec(rest.skip(k + 2))),
        None => None,
    }
}

/// The years of the sign-off lines among `ls`, from the top; none when one
/// of them has no date that reads as one.
pub open spec fn signoff_years(ls: Seq<Seq<char>>) -> Option<Seq<int>>
    decreases ls.len(),
{
    if ls.len() == 0 {
        Some(Seq::empty())
    } else {
        match signoff_years(ls.drop_last()) {
            None => None,
            Some(ys) => if starts_with_spec(ls.last(), " -- "@) {
                match signoff_date(ls.last()) {
                    None => None,
                    Some(d) => match rfc2822_year_of(d) {
                        None => None,
                        Some(y) => Some(ys.push(y)),
                    },
                }
            } else {
                Some(ys)
            },
        }
    }
}

/// The years of the first and of the latest entry of a changelog (its
/// bottom and its top entry); none when it has no entry or an entry's date
/// does not read.
pub open spec fn changelog_years_spec(text: Seq<char>) -> Option<(int, int)> {
    match signoff_years(lines_spec(text)) {
        Some(ys) => if ys.len() > 0 {
            Some((ys.last(), ys[0]))
        } else {
            None
        },
        None => None,
    }
}

proof fn lemma_signoff_years_none(ls: Seq<Seq<char>>, i: int)
    requires
        0 <= i <= ls.len(),
        signoff_years(ls.subrange(0, i)) is None,
    ensures
        signoff_years(ls) is None,
    decreases ls.len() - i,
{
    if i < ls.len() {
        assert(ls.subrange(0, i + 1).drop_last() =~= ls.subrange(0, i));
        lemma_signoff_years_none(ls, i + 1);
    } else {
        assert(ls.subrange(0, i) =~= ls);
    }
}

/// The year of the sign-off line `line`.
fn signoff_year(line: &str) -> (r: Option<i32>)
    requires
        starts_with_spec(line@, " -- "@),
    ensures
        match signoff_date(line@) {
            None => r is None,
            Some(d) => match r {
                Some(y) => rfc2822_year_of(d) == Some(y as int),
                None => rfc2822_year_of(d) is None,
            },
        },
{
    proof {
        reveal_strlit(" -- ");
        reveal_strlit("  ");
    }
    let cs = str_chars(line);
    let rest_s = chars_from(&cs, 4, cs.len());
    let rest = str_chars(rest_s.as_str());
    match first_occurrence_exec(&rest, "  ") {
        None => None,
        Some(k) => {
            proof {
                lemma_occurrence_fits(rest@, "  "@, 0);
            }
            let date = chars_from(&rest, k + 2, rest.len());
            let d = trim(date.as_str());
            assert(rest@.skip(k + 2) =~= rest@.subrange(k + 2, rest@.len() as int));
            rfc2822_year(d.as_str())
        },
    }
}

/// The years of the first and of the latest entry of the changelog `text`.
pub fn changelog_years(text: &str) -> (r: Option<(i32, i32)>)
    ensures
        match r {
            Some((a, b)) => changelog_years_spec(text@) == Some((a as int, b as int)),
            None => changelog_years_spec(text@) is None,
        },
{
    let ls = lines(text);
    let ghost lv = views(ls@);
    let mut top: i32 = 0;
    let mut bottom: i32 = 0;
    let mut found = false;
    let mut i: usize = 0;
    assert(lv.subrange(0, 0) =~= Seq::<Seq<char>>::empty());
    while i < ls.len()
        invariant
            i <= ls@.len(),
            lv == views(ls@),
            lv == lines_spec(text@),
            signoff_years(lv.subrange(0, i as int)) matches Some(ys) && found == (ys.len() > 0)
                && (found ==> top as int == ys[0] && bottom as int == ys.last()),
        decreases ls.len() - i,
    {
        let ghost ys = signoff_years(lv.subrange(0, i as int))->0;
        assert(lv.subrange(0, i + 1).drop_last() =~= lv.subrange(0, i as int));
        assert(lv.subrange(0, i + 1).last() == ls@[i as int]@);
        if starts_with(ls[i].as_str(), " -- ") {
            match signoff_year(ls[i].as_str()) {
                None => {
                    proof {
                        lemma_signoff_years_none(lv, i + 1);
                    }
                    return None;
                },
                Some(y) => {
                    if !found {
                        top = y;
                        found = true;
                    }
                    bottom = y;
                    assert(ys.push(y as int)[0] == (if ys.len() > 0 { ys[0] } else { y as int }));
                },
            }
        }
        i = i + 1;
    }
    assert(lv.subrange(0, lv.len() as int) =~= lv);
    if found {
        Some((bottom, top))
    } else {
        None
    }
}

} // verus!
