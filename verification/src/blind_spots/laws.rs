//! Which programs are noticed, and what is said of them.

#[allow(unused_imports)]
use super::{hint_parts, hints, interpreter, missed, spot_of, topic, BlindSpot};
#[allow(unused_imports)]
use crate::text::file_name;
#[allow(unused_imports)]
use crate::text::laws::{lemma_file_name, names_file};
use vstd::prelude::*;
use vstd::string::*;

verus! {

/// Whether a program talks to a container engine.
pub open spec fn runs_containers(name: Seq<char>) -> bool {
    name == "docker"@ || name == "docker-compose"@ || name == "nerdctl"@
}

/// Whether a program hands work to a server, unless it is told not to.
pub open spec fn runs_daemon(name: Seq<char>) -> bool {
    ||| name == "bazel"@
    ||| name == "bazel-real"@
    ||| name == "bazelisk"@
    ||| name == "buck2"@
    ||| name == "sccache"@
    ||| name == "gradle"@
    ||| name == "gradlew"@
}

/// Whether a program sets up a user namespace.
pub open spec fn maps_users(name: Seq<char>) -> bool {
    name == "newuidmap"@ || name == "newgidmap"@
}

/// A program that is noticed is so by its file name, wherever it is installed,
/// and for what it does; only Gradle can be kept from using its daemon.
#[verifier::spinoff_prover]
pub proof fn lemma_noticed(directory: Seq<char>, name: Seq<char>, arguments: Seq<Seq<char>>)
    requires
        names_file(name),
        directory.len() == 0 || directory.last() == '/',
    ensures
        ({
            let found = missed(seq![directory + name] + arguments);
            let kept = arguments.contains("--no-daemon"@) || directory + name == "--no-daemon"@;
            &&& runs_containers(name) ==> found == Some((BlindSpot::Container, name))
            &&& runs_daemon(name) && !(name == "gradle"@ || name == "gradlew"@) ==> found == Some(
                (BlindSpot::Daemon, name),
            )
            &&& (name == "gradle"@ || name == "gradlew"@) && !kept ==> found == Some(
                (BlindSpot::Daemon, name),
            )
            &&& (name == "gradle"@ || name == "gradlew"@) && kept ==> found is None
            &&& maps_users(name) ==> found == Some((BlindSpot::PodmanUserNamespace, name))
            &&& !runs_containers(name) && !runs_daemon(name) && !maps_users(name) && name != "sh"@
                && name != "bash"@ && name != "dash"@ && name != "zsh"@ ==> found is None
        }),
{
    let argv = seq![directory + name] + arguments;
    lemma_file_name(directory, name);
    lemma_names_differ();
    assert(argv[0] == directory + name);
    lemma_mentioned(directory + name, arguments);
}

proof fn lemma_mentioned(first: Seq<char>, arguments: Seq<Seq<char>>)
    ensures
        (seq![first] + arguments).contains("--no-daemon"@) <==> arguments.contains("--no-daemon"@)
            || first == "--no-daemon"@,
{
    let argv = seq![first] + arguments;
    let flag = "--no-daemon"@;
    if arguments.contains(flag) {
        let i = choose|i: int| 0 <= i < arguments.len() && arguments[i] == flag;
        assert(argv[i + 1] == flag);
    }
    if first == flag {
        assert(argv[0] == flag);
    }
    if argv.contains(flag) && first != flag {
        let i = choose|i: int| 0 <= i < argv.len() && argv[i] == flag;
        assert(arguments[i - 1] == flag);
    }
}

proof fn lemma_names_differ()
    ensures
        !runs_daemon("newuidmap"@),
        !runs_daemon("newgidmap"@),
        !runs_containers("newuidmap"@),
        !runs_containers("newgidmap"@),
        !runs_containers("bazel"@),
        !runs_containers("bazel-real"@),
        !runs_containers("bazelisk"@),
        !runs_containers("buck2"@),
        !runs_containers("sccache"@),
        !runs_containers("gradle"@),
        !runs_containers("gradlew"@),
        !maps_users("gradle"@),
        !maps_users("gradlew"@),
        "gradle"@ != "bazel"@,
        "gradle"@ != "bazel-real"@,
        "gradle"@ != "bazelisk"@,
        "gradle"@ != "buck2"@,
        "gradle"@ != "sccache"@,
        "gradlew"@ != "bazel"@,
        "gradlew"@ != "bazel-real"@,
        "gradlew"@ != "bazelisk"@,
        "gradlew"@ != "buck2"@,
        "gradlew"@ != "sccache"@,
        !interpreter("gradle"@),
        !interpreter("gradlew"@),
{
    reveal_strlit("newuidmap");
    reveal_strlit("newgidmap");
    reveal_strlit("bazel");
    reveal_strlit("bazel-real");
    reveal_strlit("bazelisk");
    reveal_strlit("buck2");
    reveal_strlit("sccache");
    reveal_strlit("gradle");
    reveal_strlit("gradlew");
    reveal_strlit("docker");
    reveal_strlit("docker-compose");
    reveal_strlit("nerdctl");
    reveal_strlit("sh");
    reveal_strlit("bash");
    reveal_strlit("dash");
    reveal_strlit("zsh");
    assert("newuidmap"@[0] == 'n' && "newgidmap"@[0] == 'n' && "nerdctl"@[0] == 'n');
    assert("newuidmap"@.len() == 9 && "newgidmap"@.len() == 9 && "nerdctl"@.len() == 7);
    assert("bazel"@[0] == 'b' && "bazel-real"@[0] == 'b' && "bazelisk"@[0] == 'b' && "buck2"@[0]
        == 'b');
    assert("sccache"@[0] == 's' && "gradle"@[0] == 'g' && "gradlew"@[0] == 'g');
    assert("docker"@[0] == 'd' && "docker-compose"@[0] == 'd');
    assert("sh"@[0] == 's' && "bash"@[0] == 'b' && "dash"@[0] == 'd' && "zsh"@[0] == 'z');
}

/// A script that a shell runs is noticed like a program.
pub proof fn lemma_script_noticed(
    shell: Seq<char>,
    directory: Seq<char>,
    script: Seq<char>,
    arguments: Seq<Seq<char>>,
)
    requires
        shell == "/bin/sh"@ || shell == "/bin/bash"@,
        names_file(script),
        directory.len() == 0 || directory.last() == '/',
        script == "gradlew"@ || script == "bazel"@,
        !arguments.contains("--no-daemon"@),
        directory + script != "--no-daemon"@,
    ensures
        missed(seq![shell, directory + script] + arguments) == Some((BlindSpot::Daemon, script)),
{
    let argv = seq![shell, directory + script] + arguments;
    lemma_file_name(directory, script);
    lemma_names_differ();
    lemma_shells();
    assert(argv[0] == shell);
    assert(argv[1] == directory + script);
    assert(argv =~= seq![shell] + (seq![directory + script] + arguments));
    lemma_mentioned(directory + script, arguments);
    lemma_mentioned(shell, seq![directory + script] + arguments);
}

proof fn lemma_shells()
    ensures
        file_name("/bin/sh"@) == Some("sh"@),
        file_name("/bin/bash"@) == Some("bash"@),
        "/bin/sh"@ != "--no-daemon"@,
        "/bin/bash"@ != "--no-daemon"@,
        spot_of("sh"@, true) is None,
        spot_of("sh"@, false) is None,
        spot_of("bash"@, true) is None,
        spot_of("bash"@, false) is None,
{
    reveal_strlit("/bin/sh");
    reveal_strlit("/bin/bash");
    reveal_strlit("/bin/");
    reveal_strlit("sh");
    reveal_strlit("bash");
    reveal_strlit("--no-daemon");
    assert("/bin/sh"@ =~= "/bin/"@ + "sh"@);
    assert("/bin/bash"@ =~= "/bin/"@ + "bash"@);
    lemma_file_name("/bin/"@, "sh"@);
    lemma_file_name("/bin/"@, "bash"@);
    assert("/bin/sh"@[0] == '/' && "/bin/bash"@[0] == '/' && "--no-daemon"@[0] == '-');
    lemma_no_spot("sh"@);
    lemma_no_spot("bash"@);
}

proof fn lemma_no_spot(name: Seq<char>)
    requires
        name == "sh"@ || name == "bash"@,
    ensures
        spot_of(name, true) is None,
        spot_of(name, false) is None,
{
    reveal_strlit("sh");
    reveal_strlit("bash");
    reveal_strlit("newuidmap");
    reveal_strlit("newgidmap");
    reveal_strlit("bazel");
    reveal_strlit("bazel-real");
    reveal_strlit("bazelisk");
    reveal_strlit("buck2");
    reveal_strlit("sccache");
    reveal_strlit("gradle");
    reveal_strlit("gradlew");
    reveal_strlit("docker");
    reveal_strlit("docker-compose");
    reveal_strlit("nerdctl");
    assert(name.len() == 2 || name.len() == 4);
    assert("buck2"@.len() == 5 && "bazel"@.len() == 5 && "gradle"@.len() == 6 && "docker"@.len()
        == 6 && "sccache"@.len() == 7 && "gradlew"@.len() == 7 && "nerdctl"@.len() == 7);
}

/// Each kind has its own page to read more on, and the program is named where
/// it matters which it was.
pub proof fn lemma_hints(program: Seq<char>)
    ensures
        hints(BlindSpot::Container, Some(program)).len() == 2,
        hints(BlindSpot::Container, Some(program))[0][0] == (program, true),
        hints(BlindSpot::Container, Some(program))[1][1] == (
            "https://buildprof.lalitm.com/diagnose/containers"@,
            true,
        ),
        hints(BlindSpot::Daemon, Some(program)).len() == 2,
        hints(BlindSpot::Daemon, Some(program))[0][0] == (program, true),
        hints(BlindSpot::Daemon, Some(program))[1][1] == (
            "https://buildprof.lalitm.com/diagnose/daemons"@,
            true,
        ),
        hints(BlindSpot::PodmanUserNamespace, Some(program)).len() == 2,
        hints(BlindSpot::PodmanUserNamespace, Some(program))[0][1] == ("podman info"@, true),
        hints(BlindSpot::PodmanUserNamespace, Some(program))[1][1] == (
            "https://buildprof.lalitm.com/diagnose/podman"@,
            true,
        ),
        hints(BlindSpot::Container, None).len() == 0,
        hints(BlindSpot::Daemon, None).len() == 0,
        hints(BlindSpot::PodmanUserNamespace, None).len() == 0,
{
    reveal_strlit("https://buildprof.lalitm.com/diagnose/");
    reveal_strlit("https://buildprof.lalitm.com/diagnose/containers");
    reveal_strlit("https://buildprof.lalitm.com/diagnose/daemons");
    reveal_strlit("https://buildprof.lalitm.com/diagnose/podman");
    reveal_strlit("containers");
    reveal_strlit("daemons");
    reveal_strlit("podman");
    assert("https://buildprof.lalitm.com/diagnose/"@ + "containers"@
        =~= "https://buildprof.lalitm.com/diagnose/containers"@);
    assert("https://buildprof.lalitm.com/diagnose/"@ + "daemons"@
        =~= "https://buildprof.lalitm.com/diagnose/daemons"@);
    assert("https://buildprof.lalitm.com/diagnose/"@ + "podman"@
        =~= "https://buildprof.lalitm.com/diagnose/podman"@);
}

} // verus!
