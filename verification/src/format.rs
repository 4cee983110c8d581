//! Report-line formatting.
//!
//! Each surviving release becomes one text line: its title, the
//! comma-joined ordered contributing creator names, and one representative
//! canonical URL.  When a release knows several link providers, the
//! provider is chosen by a caller-supplied priority list, falling back to
//! the first known link, so the choice is deterministic.

use vstd::prelude::*;
use crate::model::Release;
use vstd::string::StrSliceExecFns;
use vstd::string::StringExecFns;

verus! {

/// The comma-joined creator names, in their given order.
pub open spec fn join_names(names: Seq<String>) -> Seq<char>
    decreases names.len(),
{
    if names.len() == 0 {
        Seq::empty()
    } else if names.len() == 1 {
        names[0]@
    } else {
        join_names(names.drop_last()) + ", "@ + names.last()@
    }
}

/// The URL of the first link whose provider is named `provider`, if any.
pub open spec fn find_provider(links: Seq<(String, String)>, provider: Seq<char>) -> Option<
    Seq<char>,
>
    decreases links.len(),
{
    if links.len() == 0 {
        None
    } else if links[0].0@ == provider {
        Some(links[0].1@)
    } else {
        find_provider(links.drop_first(), provider)
    }
}

/// The representative URL of a release: the URL of the highest-priority
/// provider that is known, else the first known URL, else nothing.
pub open spec fn select_link(links: Seq<(String, String)>, priority: Seq<String>) -> Seq<char>
    decreases priority.len(),
{
    if priority.len() == 0 {
        if links.len() == 0 {
            Seq::empty()
        } else {
            links[0].1@
        }
    } else {
        match find_provider(links, priority[0]@) {
            Some(url) => url,
            None => select_link(links, priority.drop_first()),
        }
    }
}

/// The report line of a release: its title, the joined creator names, and
/// the representative URL.
pub open spec fn spec_line(r: Release, priority: Seq<String>) -> Seq<char> {
    " - "@ + r.title@ + " by "@ + join_names(r.artists@) + " "@ + select_link(r.links@, priority)
}

/// Joins creator names with a comma and a space, in their given order.
pub fn join_names_exec(names: &Vec<String>) -> (r: String)
    ensures
        r@ == join_names(names@),
{
    let mut out = String::new();
    let mut j: usize = 0;
    while j < names.len()
        invariant
            j <= names@.len(),
            out@ == join_names(names@.take(j as int)),
        decreases names@.len() - j,
    {
        proof {
            assert(names@.take(j + 1).drop_last() =~= names@.take(j as int));
            assert(names@.take(j + 1).last() == names@[j as int]);
        }
        if j > 0 {
            out.append(", ");
        }
        out.append(names[j].as_str());
        proof {
            if j == 0 {
                assert(out@ =~= join_names(names@.take(1)));
            } else {
                assert(out@ =~= join_names(names@.take(j + 1)));
            }
        }
        j += 1;
    }
    proof {
        assert(names@.take(names@.len() as int) =~= names@);
    }
    out
}

/// The URL of the first link with the given provider, if one is known.
fn find_provider_exec<'a>(links: &'a Vec<(String, String)>, provider: &String) -> (r: Option<
    &'a String,
>)
    ensures
        match r {
            Some(url) => find_provider(links@, provider@) == Some(url@),
            None => find_provider(links@, provider@) is None,
        },
{
    let mut j: usize = 0;
    proof {
        assert(links@.skip(0) =~= links@);
    }
    while j < links.len()
        invariant
            j <= links@.len(),
            find_provider(links@, provider@) == find_provider(links@.skip(j as int), provider@),
        decreases links@.len() - j,
    {
        proof {
            assert(links@.skip(j as int)[0] == links@[j as int]);
            assert(links@.skip(j as int).drop_first() =~= links@.skip(j + 1));
        }
        if links[j].0 == *provider {
            return Some(&links[j].1);
        }
        j += 1;
    }
    None
}

/// Picks the representative URL of a release under the given provider
/// priority list.
pub fn select_link_exec(links: &Vec<(String, String)>, priority: &Vec<String>) -> (r: String)
    ensures
        r@ == select_link(links@, priority@),
{
    let mut j: usize = 0;
    proof {
        assert(priority@.skip(0) =~= priority@);
    }
    while j < priority.len()
        invariant
            j <= priority@.len(),
            select_link(links@, priority@) == select_link(links@, priority@.skip(j as int)),
        decreases priority@.len() - j,
    {
        proof {
            assert(priority@.skip(j as int)[0] == priority@[j as int]);
            assert(priority@.skip(j as int).drop_first() =~= priority@.skip(j + 1));
        }
        match find_provider_exec(links, &priority[j]) {
            Some(url) => {
                return url.clone();
            },
            None => {},
        }
        j += 1;
    }
    proof {
        assert(priority@.skip(priority@.len() as int) =~= Seq::<String>::empty());
    }
    if links.len() == 0 {
        String::new()
    } else {
        links[0].1.clone()
    }
}

/// Formats one report line: `" - <title> by <names> <url>"`.
pub fn format_line(r: &Release, priority: &Vec<String>) -> (line: String)
    ensures
        line@ == spec_line(*r, priority@),
{
    let mut line = String::from_str(" - ");
    line.append(r.title.as_str());
    line.append(" by ");
    let names = join_names_exec(&r.artists);
    line.append(names.as_str());
    line.append(" ");
    let url = select_link_exec(&r.links, priority);
    line.append(url.as_str());
    proof {
        assert(line@ =~= spec_line(*r, priority@));
    }
    line
}

} // verus!
