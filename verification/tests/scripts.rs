use arch_run::scripts::{
    advance_script, begin_script, event_fits, may_be_script, place_in_farm, rewrite_script, script_paths, shell_script,
    ScriptEvent, ScriptStep,
};

fn paths(script: &str) -> Vec<String> {
    script_paths(script.as_bytes()).into_iter().map(|p| String::from_utf8(p).unwrap()).collect()
}

fn all_rewritten(script: &str) -> String {
    let n = script_paths(script.as_bytes()).len();
    String::from_utf8(rewrite_script(script.as_bytes(), &vec![true; n]).unwrap()).unwrap()
}

#[test]
fn shell_scripts_are_told_by_their_first_line() {
    for s in [
        "#!/bin/sh",
        "#!/bin/sh\n",
        "#! /usr/bin/bash -e\n",
        "#!/usr/bin/env bash\n",
        "#!/usr/bin/env -S zsh -f\n",
        "#!dash\n",
        "#!/bin/ksh\tx\n",
        "#!/bin/ash\n",
    ] {
        assert!(shell_script(s.as_bytes()), "{s}");
    }
    for s in ["", "#", "#!", "sh", "#!/usr/bin/python\nsh\n", "#!/bin/fish\n", "#!/bin/shx\n", "x#!/bin/sh\n"] {
        assert!(!shell_script(s.as_bytes()), "{s}");
    }
    assert!(may_be_script(b"#!"));
    assert!(!may_be_script(b"\x7fE"));
    assert!(!may_be_script(b"#"));
}

#[test]
fn a_call_leads_into_the_overlay() {
    assert_eq!(
        all_rewritten("#!/bin/sh\nexec /usr/lib/foo/run \"$@\"\n"),
        "#!/bin/sh\nexec /tmp/arch-run/usr/lib/foo/run \"$@\"\n"
    );
}

#[test]
fn only_provided_paths_are_rewritten() {
    let script = "#!/usr/bin/bash\n. /etc/foo.conf; PATH=/usr/bin:/opt/foo\n";
    assert_eq!(paths(script), vec!["/usr/bin/bash", "/etc/foo.conf", "/usr/bin", "/opt/foo"]);
    assert_eq!(
        rewrite_script(script.as_bytes(), &[false, true, false, true]).unwrap(),
        b"#!/usr/bin/bash\n. /tmp/arch-run/etc/foo.conf; PATH=/usr/bin:/tmp/arch-run/opt/foo\n"
    );
    assert_eq!(rewrite_script(script.as_bytes(), &[false; 4]), None);
}

#[test]
fn paths_start_where_words_do() {
    assert_eq!(
        paths("#!/bin/sh\nx='/usr/a' \"/usr/b\" `/usr/c` $(/usr/d) {/usr/e,/usr/f} </etc/g>/var/h\n"),
        vec!["/usr/a", "/usr/b", "/usr/c", "/usr/d", "/usr/e", "/usr/f", "/etc/g", "/var/h"]
    );
    assert_eq!(paths("#!/bin/sh\nls /usr/share/$x /usr/lib/*.so\n"), vec!["/usr/share/", "/usr/lib/"]);
    for word in ["$HOME/usr/x", "${D}/usr/x", "\"$D\"/usr/x", "./usr/x", "a/usr/x", "/home/u", "/tmp/arch-run/usr/x", "/usrx"] {
        assert!(paths(&format!("#!/bin/sh\nls {word}\n")).is_empty(), "{word}");
    }
}

#[test]
fn a_rewritten_script_holds_nothing_more_to_rewrite() {
    let text = all_rewritten("#!/bin/sh\n/usr/bin/a '/opt/b' c=/var/d:/etc/e\n");
    assert_eq!(paths(&text), Vec::<String>::new());
}

#[test]
fn other_files_are_left_alone() {
    let program = b"#!/usr/bin/python\nopen('/usr/x')\n";
    assert!(script_paths(program).is_empty());
    assert_eq!(rewrite_script(program, &[]), None);
}

#[test]
fn bytes_that_are_no_text_are_kept() {
    assert_eq!(
        rewrite_script(b"#!/bin/sh\n\xff /usr/\xfe", &[true]).unwrap(),
        b"#!/bin/sh\n\xff /tmp/arch-run/usr/\xfe"
    );
}

#[test]
fn paths_are_looked_up_in_the_farm() {
    assert_eq!(place_in_farm(b"/c/.tmpX", b"/usr/lib/x"), b"/c/.tmpX/usr/lib/x");
}

const FARM: &[u8] = b"/c/.tmpX";
const SOURCE: &[u8] = b"/c/foo-1/usr/bin/run";
const AT: &[u8] = b"/c/.tmpX/usr/bin/run";

fn go(step: ScriptStep, event: ScriptEvent) -> ScriptStep {
    assert!(event_fits(&step, &event), "{step:?} {event:?}");
    advance_script(FARM, step, event)
}

fn looked_up() -> ScriptStep {
    let text = b"#!/bin/sh\n/usr/lib/foo/run\n".to_vec();
    let step = begin_script(SOURCE, AT);
    assert!(matches!(&step, ScriptStep::ReadHead { source, at } if source == SOURCE && at == AT));
    let step = go(step, ScriptEvent::Head(Some(b"#!".to_vec())));
    assert!(matches!(&step, ScriptStep::ReadText { source, .. } if source == SOURCE));
    let step = go(step, ScriptEvent::Text(Some(text)));
    match &step {
        ScriptStep::LookUp { places, .. } => assert_eq!(places, &vec![b"/c/.tmpX/usr/lib/foo/run".to_vec()]),
        other => panic!("{other:?}"),
    }
    assert!(!event_fits(&step, &ScriptEvent::Provided(vec![])));
    assert!(!event_fits(&step, &ScriptEvent::Replaced));
    step
}

#[test]
fn a_script_takes_the_place_of_its_link() {
    let step = go(looked_up(), ScriptEvent::Provided(vec![true]));
    match &step {
        ScriptStep::Replace { source, at, text } => {
            assert_eq!(source, SOURCE);
            assert_eq!(at, AT);
            assert_eq!(text, b"#!/bin/sh\n/tmp/arch-run/usr/lib/foo/run\n");
        }
        other => panic!("{other:?}"),
    }
    assert!(matches!(go(step, ScriptEvent::Replaced), ScriptStep::Done));
}

#[test]
fn a_link_stays_where_there_is_nothing_to_rewrite() {
    assert!(matches!(go(looked_up(), ScriptEvent::Provided(vec![false])), ScriptStep::Done));
    assert!(matches!(go(begin_script(SOURCE, AT), ScriptEvent::Head(None)), ScriptStep::Done));
    assert!(matches!(go(begin_script(SOURCE, AT), ScriptEvent::Head(Some(b"\x7fE".to_vec()))), ScriptStep::Done));
    let step = go(begin_script(SOURCE, AT), ScriptEvent::Head(Some(b"#!".to_vec())));
    assert!(matches!(go(step, ScriptEvent::Text(None)), ScriptStep::Done));
    assert!(matches!(begin_script(b"/tmp/arch-run/usr/lib/x", AT), ScriptStep::Done));
    assert!(!event_fits(&ScriptStep::Done, &ScriptEvent::Replaced));
}
