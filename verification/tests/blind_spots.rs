use buildprof::blind_spots::{classify, BlindSpot, BlindSpots};

fn strings(argv: &[&str]) -> Vec<String> {
    argv.iter().map(|arg| arg.to_string()).collect()
}

fn spot(argv: &[&str]) -> Option<(BlindSpot, String)> {
    classify(&strings(argv))
}

#[test]
fn matches_programs_by_file_name() {
    assert_eq!(
        spot(&["/usr/bin/docker", "run", "image"]),
        Some((BlindSpot::Container, "docker".into()))
    );
    assert_eq!(
        spot(&["bazel", "build", "//..."]),
        Some((BlindSpot::Daemon, "bazel".into()))
    );
    assert_eq!(
        spot(&["/usr/bin/newuidmap", "1234", "0", "1000", "1"]),
        Some((BlindSpot::PodmanUserNamespace, "newuidmap".into()))
    );
    assert_eq!(spot(&["cargo", "build"]), None);
    assert_eq!(spot(&["podman", "run", "image"]), None);
    assert_eq!(spot(&[]), None);
}

#[test]
fn looks_through_script_interpreters() {
    assert_eq!(
        spot(&["/bin/sh", "./gradlew", "build"]),
        Some((BlindSpot::Daemon, "gradlew".into()))
    );
    assert_eq!(spot(&["sh", "-c", "docker run image"]), None);
    assert_eq!(spot(&["python3", "docker"]), None);
}

#[test]
fn gradle_without_its_daemon_is_fine() {
    assert_eq!(spot(&["/bin/sh", "./gradlew", "--no-daemon", "build"]), None);
}

#[test]
fn nothing_is_reported_of_an_ordinary_build() {
    let mut spots = BlindSpots::default();
    spots.observe(&strings(&["cargo", "build"]));
    assert_eq!(spots.report().len(), 0);
}

#[test]
fn each_blind_spot_is_reported_once_with_its_first_program() {
    let mut spots = BlindSpots::default();
    spots.observe(&strings(&["/usr/bin/docker", "run"]));
    spots.observe(&strings(&["docker-compose", "up"]));
    spots.observe(&strings(&["sccache", "rustc"]));
    let messages: Vec<String> = spots
        .report()
        .iter()
        .map(|message| message.iter().map(|span| span.text.as_str()).collect())
        .collect();
    assert_eq!(
        messages,
        [
            "docker ran during this build; work inside its containers is not recorded",
            "see https://buildprof.lalitm.com/diagnose/containers",
            "sccache ran during this build; work it hands to a daemon may not be recorded",
            "see https://buildprof.lalitm.com/diagnose/daemons",
        ]
    );
}
