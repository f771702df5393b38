use fig2img::{accept_download, plan_downloads, png_destination, DownloadError, RenderUrlEntry};

fn entry(id: &str, url: Option<&str>, name: &str) -> RenderUrlEntry {
    RenderUrlEntry {
        id: id.to_string(),
        url: url.map(|u| u.to_string()),
        name: name.to_string(),
    }
}

#[test]
fn success_statuses_accept_the_body() {
    assert!(accept_download(200).is_ok());
    assert!(accept_download(204).is_ok());
    assert!(accept_download(299).is_ok());
}

#[test]
fn non_success_statuses_fail_with_the_status() {
    assert_eq!(accept_download(404).unwrap_err(), DownloadError::Http(404));
    assert_eq!(accept_download(500).unwrap_err(), DownloadError::Http(500));
    assert_eq!(accept_download(301).unwrap_err(), DownloadError::Http(301));
    assert_eq!(accept_download(199).unwrap_err(), DownloadError::Http(199));
}

#[test]
fn destination_is_the_sanitized_name_inside_the_directory() {
    assert_eq!(png_destination("downloads", "logo"), "downloads/logo.png");
    assert_eq!(
        png_destination("./downloads", "he/llo:world"),
        "./downloads/he_llo_world.png"
    );
}

#[test]
fn plan_schedules_one_task_per_entry_with_a_url() {
    let entries = vec![
        entry("1:1", Some("https://example.com/a.png"), "a"),
        entry("1:2", None, "skipped"),
        entry("1:3", Some("https://example.com/c.png"), "c/slash"),
    ];

    let tasks = plan_downloads(&entries, "out");
    assert_eq!(tasks.len(), 2);
    assert_eq!(tasks[0].url, "https://example.com/a.png");
    assert_eq!(tasks[0].dest, "out/a.png");
    assert_eq!(tasks[1].url, "https://example.com/c.png");
    assert_eq!(tasks[1].dest, "out/c_slash.png");
}

#[test]
fn plan_of_no_entries_is_empty() {
    let tasks = plan_downloads(&vec![], "out");
    assert!(tasks.is_empty());
}

#[test]
fn colliding_sanitized_names_are_detected() {
    // Identity is the node id, so two nodes may share a display name; the
    // plan keeps both tasks and the collision is surfaced, not guessed away.
    let entries = vec![
        entry("1:1", Some("u1"), "logo/a"),
        entry("1:2", Some("u2"), "logo_a"),
    ];
    let tasks = plan_downloads(&entries, "out");
    assert_eq!(tasks.len(), 2);
    assert_eq!(tasks[0].dest, tasks[1].dest);
    assert!(fig2img::has_duplicate_dest(&tasks));

    let distinct = plan_downloads(
        &vec![entry("1:1", Some("u1"), "a"), entry("1:2", Some("u2"), "b")],
        "out",
    );
    assert!(!fig2img::has_duplicate_dest(&distinct));
}
