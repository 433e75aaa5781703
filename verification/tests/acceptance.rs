use picmash::acceptance::{
    complaint, empty_session, first_session, fixture, fixture_pixels, is_jxl_file, label, patience,
    pixel, reached, remote_session, remote_settings, restored_session, shot_name, Milestone,
    Observation, Shot, StoryStep,
};

fn observation() -> Observation {
    Observation {
        contract: "picmash.acceptance.v1".to_owned(),
        mode: "compare".to_owned(),
        busy: false,
        status: "READY".to_owned(),
        collection: Some("/images".to_owned()),
        visible_assets: 4,
        favorites: 0,
        duels: 0,
        pair_ready: true,
        remote_pair: false,
        remote_ready: 0,
        remote_promoting: 0,
        pair_rotations: Some((0, 0)),
        images_per_row: 5,
        viewer_open: false,
        viewer_ready: false,
        guide_open: false,
        settings_open: false,
        text_edit_focused: false,
    }
}

#[test]
fn milestones_are_read_off_the_observation() {
    let o = observation();
    assert!(reached(Milestone::FourImageComparison, &o));
    assert!(!reached(Milestone::EmptyFirstContact, &o));
    assert!(!reached(Milestone::RotatedComparison, &o));
    assert!(reached(
        Milestone::RotatedComparison,
        &Observation { pair_rotations: Some((0, 1)), ..observation() }
    ));
    assert!(!reached(Milestone::FourImageComparison, &Observation { busy: true, ..observation() }));
    assert!(reached(
        Milestone::CollectionBrowser,
        &Observation { mode: "browse".to_owned(), ..observation() }
    ));
    assert!(reached(
        Milestone::PromotedChallenger,
        &Observation { duels: 5, ..observation() }
    ));
    assert_eq!(label(Milestone::RecordedDuel), "recorded duel");
}

#[test]
fn stories_have_a_beginning_and_an_end() {
    for story in [empty_session(), first_session(), restored_session(), remote_session()] {
        assert!(matches!(story[0], StoryStep::Launch { .. }));
        assert_eq!(story[story.len() - 1], StoryStep::Terminate);
    }
    assert_eq!(first_session()[1], StoryStep::WaitLong(Milestone::FourImageComparison));
    assert_eq!(patience(first_session()[1]), Some(45));
    assert_eq!(patience(StoryStep::Wait(Milestone::Settings)), Some(8));
    assert_eq!(patience(StoryStep::Terminate), None);
    assert_eq!(shot_name(Shot::Viewer), "picmash-viewer.png");
}

#[test]
fn pictures_of_the_fixture_are_png_files() {
    assert_eq!(pixel(0, 640, 480, 320, 240), [36, 92, 47, 255]);
    let bytes = fixture(3, 64, 48).expect("png");
    let decoded = image::load_from_memory(&bytes).expect("decode").to_rgba8();
    assert_eq!(decoded.dimensions(), (64, 48));
    assert_eq!(decoded.as_raw(), &fixture_pixels(3, 64, 48));
    assert_eq!(decoded.get_pixel(5, 7).0, pixel(3, 64, 48, 5, 7));
    assert_ne!(fixture(4, 64, 48).expect("png"), bytes);
}

#[test]
fn settings_name_the_directory() {
    let settings = remote_settings("/tmp/outside");
    assert!(settings.contains("root = \"/tmp/outside\"\n"));
    let parsed: toml::Value = toml::from_str(&settings).expect("toml");
    assert_eq!(parsed["remote"]["sources"][0]["weight"].as_float(), Some(1.0));
    assert!(is_jxl_file("/a/b.jxl"));
    assert!(!is_jxl_file("/a/b.png"));
}

#[test]
fn what_is_wrong_at_a_milestone_is_said() {
    let o = observation();
    let said = |milestone, o: &Observation| complaint(milestone, o, "picmash.acceptance.v1");
    assert_eq!(said(Milestone::FourImageComparison, &o), None);
    assert_eq!(
        complaint(Milestone::FourImageComparison, &o, "other").as_deref(),
        Some("UI contract mismatch")
    );
    assert_eq!(
        said(Milestone::EmptyFirstContact, &o).as_deref(),
        Some("empty first contact projected collection state")
    );
    let focused = Observation { text_edit_focused: true, ..observation() };
    assert_eq!(
        said(Milestone::FourImageComparison, &focused).as_deref(),
        Some("a hidden editor stole keyboard focus")
    );
    let fault = Observation { status: "FAULT: disk".to_owned(), ..observation() };
    assert_eq!(
        said(Milestone::CollectionBrowser, &fault).as_deref(),
        Some("browser opened in fault: FAULT: disk")
    );
    assert_eq!(
        said(Milestone::PromotedChallenger, &fault).as_deref(),
        Some("promotion faulted: FAULT: disk")
    );
    assert_eq!(
        said(Milestone::RemoteChallenger, &o).as_deref(),
        Some("displayed challenger escaped the reservoir bound")
    );
    assert_eq!(said(Milestone::RemoteReservoir, &o), None);
    assert_eq!(said(Milestone::CommandGuide, &fault), None);
}
