use rust_viewer_pro::update::{current_version, latest_release, ReleaseInfo, UpdateBanner, UpdateStatus};

fn release(version: &str, body: Option<&str>) -> ReleaseInfo {
    ReleaseInfo { version: version.to_string(), body: body.map(str::to_string) }
}

#[test]
fn newer_release_is_offered_with_its_notes() {
    let r = latest_release("0.1.0", vec![release("0.2.0", Some("notes")), release("0.1.5", None)]);
    assert_eq!(r, Ok(Some((String::from("0.2.0"), String::from("notes")))));
}

#[test]
fn missing_notes_are_empty() {
    let r = latest_release("1.2.0", vec![release("1.2.3", None)]);
    assert_eq!(r, Ok(Some((String::from("1.2.3"), String::new()))));
}

#[test]
fn only_the_first_release_counts() {
    let r = latest_release("0.1.0", vec![release("0.1.0", None), release("9.0.0", None)]);
    assert_eq!(r, Ok(None));
}

#[test]
fn same_or_older_version_is_not_offered() {
    assert_eq!(latest_release("0.1.0", vec![release("0.1.0", Some("x"))]), Ok(None));
    assert_eq!(latest_release("0.2.0", vec![release("0.1.9", None)]), Ok(None));
    assert_eq!(latest_release("1.0.0", vec![release("1.0.0-rc.1", None)]), Ok(None));
}

#[test]
fn empty_release_list_is_up_to_date() {
    assert_eq!(latest_release("0.1.0", vec![]), Ok(None));
}

#[test]
fn unparsable_versions_are_an_error() {
    let r = latest_release("0.1.0", vec![release("v-next", None)]);
    assert!(r.is_err());
    let r = latest_release("not a version", vec![release("0.2.0", None)]);
    assert!(r.is_err());
}

#[test]
fn current_version_is_the_package_version() {
    assert_eq!(current_version(), "0.1.0");
}

#[test]
fn check_starts_only_from_idle() {
    assert!(matches!(UpdateStatus::Idle.begin_check(), Some(UpdateStatus::Checking)));
    for s in [
        UpdateStatus::Checking,
        UpdateStatus::UpToDate,
        UpdateStatus::Installing,
        UpdateStatus::Failed(String::from("e")),
        UpdateStatus::Available { version: String::from("1"), notes: String::new() },
        UpdateStatus::Installed { version: String::from("1") },
    ] {
        assert!(s.begin_check().is_none());
    }
    assert!(matches!(UpdateStatus::default(), UpdateStatus::Idle));
}

#[test]
fn check_outcomes() {
    let s = UpdateStatus::check_finished(Ok(Some((String::from("0.2.0"), String::from("n")))));
    assert!(matches!(s, UpdateStatus::Available { ref version, ref notes } if version == "0.2.0" && notes == "n"));
    assert!(matches!(UpdateStatus::check_finished(Ok(None)), UpdateStatus::UpToDate));
    let s = UpdateStatus::check_finished(Err(String::from("offline")));
    assert!(matches!(s, UpdateStatus::Failed(ref e) if e == "offline"));
}

#[test]
fn install_is_not_reentered() {
    assert!(UpdateStatus::Installing.begin_install().is_none());
    let s = UpdateStatus::Available { version: String::from("1"), notes: String::new() };
    assert!(matches!(s.begin_install(), Some(UpdateStatus::Installing)));
    assert!(matches!(UpdateStatus::Failed(String::new()).begin_install(), Some(UpdateStatus::Installing)));
    let s = UpdateStatus::install_finished(Ok(String::from("0.2.0")));
    assert!(matches!(s, UpdateStatus::Installed { ref version } if version == "0.2.0"));
    let s = UpdateStatus::install_finished(Err(String::from("denied")));
    assert!(matches!(s, UpdateStatus::Failed(ref e) if e == "denied"));
}

#[test]
fn banner_follows_the_status() {
    assert!(matches!(UpdateStatus::Idle.banner(), UpdateBanner::Hidden));
    assert!(matches!(UpdateStatus::UpToDate.banner(), UpdateBanner::Hidden));
    assert!(matches!(UpdateStatus::Checking.banner(), UpdateBanner::Checking));
    let s = UpdateStatus::Available { version: String::from("0.3.0"), notes: String::from("n") };
    assert!(matches!(s.banner(), UpdateBanner::Offer { ref version } if version == "0.3.0"));
    assert!(matches!(UpdateStatus::Installing.banner(), UpdateBanner::Installing));
    let s = UpdateStatus::Installed { version: String::from("0.3.0") };
    assert!(matches!(s.banner(), UpdateBanner::Restart { ref version } if version == "0.3.0"));
    let s = UpdateStatus::Failed(String::from("x"));
    assert!(matches!(s.banner(), UpdateBanner::Unavailable));
}
