//! Programs whose work a recording is likely to miss. They are noticed by
//! name at exec and reported once, after the build, so the hint is not lost
//! in the build's own output.

use crate::report::{emph, plain, Span};
#[allow(unused_imports)]
use crate::report::{all_parts, parts};
use crate::text::{same_text, text_file_name};
#[allow(unused_imports)]
use crate::text::{file_name, text_of, views};
use vstd::prelude::*;
use vstd::string::*;

pub mod laws;

verus! {

/// Stable short links, redirected by the site to the README's troubleshooting
/// sections, so binaries already installed survive README edits.
pub const DIAGNOSE_URL: &'static str = "https://buildprof.lalitm.com/diagnose/";

#[derive(Clone, Copy, Debug, PartialEq, Eq, PartialOrd, Ord, Structural)]
pub enum BlindSpot {
    /// A client that asks a daemon to run the container.
    Container,
    /// A build system or cache that hands work to a long-lived server.
    Daemon,
    /// Rootless Podman setting up its user namespace, which cannot work
    /// under tracing because setuid programs gain no privileges.
    PodmanUserNamespace,
}

/// What is missed of a program with the given name, in a command that turns
/// daemons off or does not.
pub open spec fn spot_of(name: Seq<char>, no_daemon: bool) -> Option<BlindSpot> {
    if name == "docker"@ || name == "docker-compose"@ || name == "nerdctl"@ {
        Some(BlindSpot::Container)
    } else if name == "bazel"@ || name == "bazel-real"@ || name == "bazelisk"@ || name == "buck2"@
        || name == "sccache"@ {
        Some(BlindSpot::Daemon)
    } else if (name == "gradle"@ || name == "gradlew"@) && !no_daemon {
        Some(BlindSpot::Daemon)
    } else if name == "newuidmap"@ || name == "newgidmap"@ {
        Some(BlindSpot::PodmanUserNamespace)
    } else {
        None
    }
}

/// Whether a program runs scripts that reach exec as its first argument.
pub open spec fn interpreter(name: Seq<char>) -> bool {
    name == "sh"@ || name == "bash"@ || name == "dash"@ || name == "zsh"@
}

/// What is missed of a command, and the program that says so: the command
/// itself or the script that it interprets.
pub open spec fn missed(argv: Seq<Seq<char>>) -> Option<(BlindSpot, Seq<char>)> {
    let no_daemon = argv.contains("--no-daemon"@);
    if argv.len() == 0 {
        None
    } else {
        match file_name(argv[0]) {
            None => None,
            Some(program) => match spot_of(program, no_daemon) {
                Some(spot) => Some((spot, program)),
                None => if interpreter(program) && argv.len() > 1 {
                    match file_name(argv[1]) {
                        None => None,
                        Some(script) => match spot_of(script, no_daemon) {
                            Some(spot) => Some((spot, script)),
                            None => None,
                        },
                    }
                } else {
                    None
                },
            },
        }
    }
}

fn spot_named(name: &str, no_daemon: bool) -> (spot: Option<BlindSpot>)
    ensures
        spot == spot_of(name@, no_daemon),
{
    if same_text(name, "docker") || same_text(name, "docker-compose") || same_text(
        name,
        "nerdctl",
    ) {
        Some(BlindSpot::Container)
    } else if same_text(name, "bazel") || same_text(name, "bazel-real") || same_text(
        name,
        "bazelisk",
    ) || same_text(name, "buck2") || same_text(name, "sccache") {
        Some(BlindSpot::Daemon)
    } else if (same_text(name, "gradle") || same_text(name, "gradlew")) && !no_daemon {
        Some(BlindSpot::Daemon)
    } else if same_text(name, "newuidmap") || same_text(name, "newgidmap") {
        Some(BlindSpot::PodmanUserNamespace)
    } else {
        None
    }
}

fn has_argument(argv: &[String], wanted: &str) -> (found: bool)
    ensures
        found == views(argv@).contains(wanted@),
{
    for i in 0..argv.len()
        invariant
            forall|j: int| 0 <= j < i ==> views(argv@)[j] != wanted@,
    {
        if same_text(argv[i].as_str(), wanted) {
            assert(views(argv@)[i as int] == wanted@);
            return true;
        }
    }
    false
}

pub fn classify(argv: &[String]) -> (found: Option<(BlindSpot, String)>)
    ensures
        match found {
            Some((spot, program)) => missed(views(argv@)) == Some((spot, program@)),
            None => missed(views(argv@)) is None,
        },
{
    if argv.len() == 0 {
        return None;
    }
    let ghost texts = views(argv@);
    let no_daemon = has_argument(argv, "--no-daemon");
    assert(texts[0] == argv@[0]@);
    let program = match text_file_name(argv[0].as_str()) {
        Some(program) => program,
        None => {
            return None;
        },
    };
    if let Some(spot) = spot_named(program.as_str(), no_daemon) {
        return Some((spot, program));
    }
    // A script such as gradlew or Bazel's launcher reaches exec as its
    // interpreter followed by the script path.
    let name = program.as_str();
    if argv.len() > 1 && (same_text(name, "sh") || same_text(name, "bash") || same_text(
        name,
        "dash",
    ) || same_text(name, "zsh")) {
        assert(texts[1] == argv@[1]@);
        if let Some(script) = text_file_name(argv[1].as_str()) {
            if let Some(spot) = spot_named(script.as_str(), no_daemon) {
                return Some((spot, script));
            }
        }
    }
    None
}

/// The first program seen for each kind, to name it in the hint.
pub struct BlindSpots {
    container: Option<String>,
    daemon: Option<String>,
    podman: Option<String>,
}

impl Default for BlindSpots {
    fn default() -> (spots: Self)
        ensures
            forall|spot: BlindSpot| #[trigger] spots.seen(spot) is None,
    {
        BlindSpots { container: None, daemon: None, podman: None }
    }
}

/// What a hint says of a program.
pub open spec fn hint_parts(spot: BlindSpot, program: Seq<char>) -> Seq<(Seq<char>, bool)> {
    match spot {
        BlindSpot::Container => seq![
            (program, true),
            (" ran during this build; work inside its containers is not recorded"@, false),
        ],
        BlindSpot::Daemon => seq![
            (program, true),
            (" ran during this build; work it hands to a daemon may not be recorded"@, false),
        ],
        BlindSpot::PodmanUserNamespace => seq![
            (
                "rootless Podman could not set up its user namespace while traced; run "@,
                false,
            ),
            ("podman info"@, true),
            (" before recording"@, false),
        ],
    }
}

pub open spec fn topic(spot: BlindSpot) -> Seq<char> {
    match spot {
        BlindSpot::Container => "containers"@,
        BlindSpot::Daemon => "daemons"@,
        BlindSpot::PodmanUserNamespace => "podman"@,
    }
}

/// The hints for one kind of program: what it means, and where to read more.
pub open spec fn hints(spot: BlindSpot, program: Option<Seq<char>>) -> Seq<
    Seq<(Seq<char>, bool)>,
> {
    match program {
        Some(program) => seq![
            hint_parts(spot, program),
            seq![("see "@, false), (DIAGNOSE_URL@ + topic(spot), true)],
        ],
        None => seq![],
    }
}

impl BlindSpots {
    /// The first program seen of a kind.
    pub closed spec fn seen(&self, spot: BlindSpot) -> Option<Seq<char>> {
        match spot {
            BlindSpot::Container => text_of(self.container),
            BlindSpot::Daemon => text_of(self.daemon),
            BlindSpot::PodmanUserNamespace => text_of(self.podman),
        }
    }

    /// Takes note of a command. The first program of a kind is kept.
    pub fn observe(&mut self, argv: &[String])
        ensures
            forall|spot: BlindSpot| #[trigger]
                final(self).seen(spot) == (match (old(self).seen(spot), missed(views(argv@))) {
                    (None, Some((noticed, program))) => if noticed == spot {
                        Some(program)
                    } else {
                        None
                    },
                    (seen, _) => seen,
                }),
            forall|spot: BlindSpot|
                old(self).seen(spot) is Some ==> #[trigger] final(self).seen(spot) == old(
                    self,
                ).seen(spot),
            missed(views(argv@)) matches Some((spot, program)) ==> old(self).seen(spot) is None
                ==> final(self).seen(spot) == Some(program),
    {
        if let Some((spot, program)) = classify(argv) {
            match spot {
                BlindSpot::Container => if self.container.is_none() {
                    self.container = Some(program);
                },
                BlindSpot::Daemon => if self.daemon.is_none() {
                    self.daemon = Some(program);
                },
                BlindSpot::PodmanUserNamespace => if self.podman.is_none() {
                    self.podman = Some(program);
                },
            }
        }
    }

    /// The hints to give after the build.
    pub fn report(&self) -> (messages: Vec<Vec<Span>>)
        ensures
            all_parts(messages@) == hints(BlindSpot::Container, self.seen(BlindSpot::Container))
                + hints(BlindSpot::Daemon, self.seen(BlindSpot::Daemon)) + hints(
                BlindSpot::PodmanUserNamespace,
                self.seen(BlindSpot::PodmanUserNamespace),
            ),
    {
        let mut messages: Vec<Vec<Span>> = Vec::new();
        assert(all_parts(messages@) =~= Seq::<Seq<(Seq<char>, bool)>>::empty());
        Self::hint(&mut messages, BlindSpot::Container, &self.container);
        Self::hint(&mut messages, BlindSpot::Daemon, &self.daemon);
        Self::hint(&mut messages, BlindSpot::PodmanUserNamespace, &self.podman);
        assert(all_parts(messages@) =~= hints(
            BlindSpot::Container,
            self.seen(BlindSpot::Container),
        ) + hints(BlindSpot::Daemon, self.seen(BlindSpot::Daemon)) + hints(
            BlindSpot::PodmanUserNamespace,
            self.seen(BlindSpot::PodmanUserNamespace),
        ));
        messages
    }

    fn hint(messages: &mut Vec<Vec<Span>>, spot: BlindSpot, program: &Option<String>)
        ensures
            all_parts(final(messages)@) == all_parts(old(messages)@) + hints(
                spot,
                text_of(*program),
            ),
    {
        let program = match program {
            Some(program) => program,
            None => {
                assert(all_parts(messages@) =~= all_parts(messages@) + hints(spot, None));
                return;
            },
        };
        let ghost before = messages@;
        let mut message: Vec<Span> = Vec::new();
        let topic = match spot {
            BlindSpot::Container => {
                message.push(emph(program.as_str()));
                message.push(
                    plain(" ran during this build; work inside its containers is not recorded"),
                );
                "containers"
            },
            BlindSpot::Daemon => {
                message.push(emph(program.as_str()));
                message.push(
                    plain(" ran during this build; work it hands to a daemon may not be recorded"),
                );
                "daemons"
            },
            BlindSpot::PodmanUserNamespace => {
                message.push(
                    plain("rootless Podman could not set up its user namespace while traced; run "),
                );
                message.push(emph("podman info"));
                message.push(plain(" before recording"));
                "podman"
            },
        };
        assert(parts(message@) =~= hint_parts(spot, program@));
        let mut link = DIAGNOSE_URL.to_owned();
        link.append(topic);
        let mut pointer: Vec<Span> = Vec::new();
        pointer.push(plain("see "));
        pointer.push(emph(link.as_str()));
        assert(parts(pointer@) =~= seq![
            ("see "@, false),
            (DIAGNOSE_URL@ + self::topic(spot), true),
        ]);
        messages.push(message);
        messages.push(pointer);
        assert(all_parts(messages@) =~= all_parts(before) + hints(spot, Some(program@)));
    }
}

} // verus!
