//! `knit remote projects`: the projects a remote token can see, and the
//! `owner/slug` reference by which each one is cloned.
use vstd::prelude::*;

use crate::text::{append_str, chars_of, string_from_chars};

verus! {

/// The owner half of a listed project, as the remote summarises it.
pub struct RemoteOwnerSummary {
    pub slug: Option<String>,
}

/// One project as the projects index returns it.
pub struct RemoteProjectListItem {
    pub id: String,
    pub name: String,
    pub slug: String,
    pub description: Option<String>,
    pub visibility: Option<String>,
    pub owner: Option<RemoteOwnerSummary>,
    pub organization: Option<RemoteOwnerSummary>,
    pub repository_count: Option<u64>,
}

/// One project as `knit remote projects` reports it.
pub struct RemoteProjectsEntry {
    pub id: String,
    pub owner: String,
    pub slug: String,
    pub name: String,
    pub description: Option<String>,
    pub visibility: String,
    pub repository_count: Option<u64>,
}

pub open spec fn summary_slug(s: Option<RemoteOwnerSummary>) -> Option<Seq<char>> {
    match s {
        Some(RemoteOwnerSummary { slug: Some(x) }) => Some(x@),
        _ => None,
    }
}

/// The owner of a listed project: the owner's slug, else the organization's,
/// else empty.
pub open spec fn owner_spec(item: RemoteProjectListItem) -> Seq<char> {
    match summary_slug(item.owner) {
        Some(x) => x,
        None => match summary_slug(item.organization) {
            Some(x) => x,
            None => Seq::empty(),
        },
    }
}

pub open spec fn opt_view(o: Option<String>) -> Option<Seq<char>> {
    match o {
        Some(s) => Some(s@),
        None => None,
    }
}

fn copy(s: &String) -> (out: String)
    ensures
        out@ == s@,
{
    string_from_chars(&chars_of(s.as_str()))
}

fn slug_of(s: &Option<RemoteOwnerSummary>) -> (r: Option<String>)
    ensures
        opt_view(r) == summary_slug(*s),
{
    match s {
        Some(summary) => match &summary.slug {
            Some(x) => Some(copy(x)),
            None => None,
        },
        None => None,
    }
}

/// The entry reported for a listed project.
pub fn projects_entry(item: RemoteProjectListItem) -> (e: RemoteProjectsEntry)
    ensures
        e.id@ == item.id@,
        e.owner@ == owner_spec(item),
        e.slug@ == item.slug@,
        e.name@ == item.name@,
        opt_view(e.description) == opt_view(item.description),
        e.visibility@ == (match item.visibility {
            Some(v) => v@,
            None => Seq::empty(),
        }),
        e.repository_count == item.repository_count,
{
    let owner = match slug_of(&item.owner) {
        Some(x) => x,
        None => match slug_of(&item.organization) {
            Some(x) => x,
            None => String::new(),
        },
    };
    let visibility = match item.visibility {
        Some(v) => v,
        None => String::new(),
    };
    RemoteProjectsEntry {
        id: item.id,
        owner,
        slug: item.slug,
        name: item.name,
        description: item.description,
        visibility,
        repository_count: item.repository_count,
    }
}

/// The reference that `knit clone` takes for a project: `owner/slug`, or the
/// slug alone when the owner is unknown.
pub fn clone_reference(entry: &RemoteProjectsEntry) -> (r: String)
    ensures
        r@ == (if entry.owner@.len() == 0 {
            entry.slug@
        } else {
            entry.owner@.push('/') + entry.slug@
        }),
{
    if entry.owner.as_str().unicode_len() == 0 {
        copy(&entry.slug)
    } else {
        let mut v = chars_of(entry.owner.as_str());
        v.push('/');
        append_str(&mut v, entry.slug.as_str());
        proof {
            assert(v@ =~= entry.owner@.push('/') + entry.slug@);
        }
        string_from_chars(&v)
    }
}

} // verus!
