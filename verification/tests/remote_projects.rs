use knit::remote_projects::{clone_reference, projects_entry, RemoteOwnerSummary, RemoteProjectListItem};

fn item(owner: Option<Option<&str>>, org: Option<Option<&str>>) -> RemoteProjectListItem {
    RemoteProjectListItem {
        id: "p1".to_string(),
        name: "Venue".to_string(),
        slug: "venue".to_string(),
        description: Some("events".to_string()),
        visibility: None,
        owner: owner.map(|s| RemoteOwnerSummary { slug: s.map(|x| x.to_string()) }),
        organization: org.map(|s| RemoteOwnerSummary { slug: s.map(|x| x.to_string()) }),
        repository_count: Some(3),
    }
}

#[test]
fn owner_slug_comes_first() {
    let e = projects_entry(item(Some(Some("alice")), Some(Some("acme"))));
    assert_eq!(e.owner, "alice");
    assert_eq!(e.visibility, "");
    assert_eq!(e.repository_count, Some(3));
    assert_eq!(e.description.as_deref(), Some("events"));
    assert_eq!(clone_reference(&e), "alice/venue");
}

#[test]
fn organization_slug_is_the_fallback() {
    let e = projects_entry(item(Some(None), Some(Some("acme"))));
    assert_eq!(e.owner, "acme");
    assert_eq!(clone_reference(&e), "acme/venue");
}

#[test]
fn without_an_owner_the_slug_alone_is_the_reference() {
    let e = projects_entry(item(None, None));
    assert_eq!(e.owner, "");
    assert_eq!(clone_reference(&e), "venue");
}

#[test]
fn entry_takes_owner_slug_from_user_owner() {
    let entry = projects_entry(RemoteProjectListItem {
        id: "p-1".to_string(),
        name: "Knit Tools".to_string(),
        slug: "knit-tools".to_string(),
        description: Some("workspace".to_string()),
        visibility: Some("private".to_string()),
        owner: Some(RemoteOwnerSummary { slug: Some("marc-merino".to_string()) }),
        organization: None,
        repository_count: None,
    });
    assert_eq!(entry.owner, "marc-merino");
    assert_eq!(clone_reference(&entry), "marc-merino/knit-tools");
}

#[test]
fn entry_falls_back_to_organization_slug() {
    let entry = projects_entry(RemoteProjectListItem {
        id: "p-2".to_string(),
        name: "Acme".to_string(),
        slug: "acme".to_string(),
        description: None,
        visibility: None,
        owner: None,
        organization: Some(RemoteOwnerSummary { slug: Some("acme-org".to_string()) }),
        repository_count: None,
    });
    assert_eq!(entry.owner, "acme-org");
}

#[test]
fn repository_count_appears_when_the_index_provides_it() {
    let entry = projects_entry(RemoteProjectListItem {
        id: "p-1".to_string(),
        name: "n".to_string(),
        slug: "s".to_string(),
        description: None,
        visibility: None,
        owner: Some(RemoteOwnerSummary { slug: Some("o".to_string()) }),
        organization: None,
        repository_count: Some(8),
    });
    assert_eq!(entry.repository_count, Some(8));
}
