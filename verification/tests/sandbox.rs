use arch_run::engine::{CoreEngine, EngineError};
use arch_run::sandbox::{bwrap_args, dbus_socket, probe_paths, pulse_socket, x_socket, Found, HostEnv};

fn bare() -> HostEnv {
    HostEnv {
        home: None,
        xdg_runtime_dir: None,
        wayland_display: None,
        display: None,
        dbus_session_bus_address: None,
        lang: None,
        lc_all: None,
        lc_ctype: None,
        lc_messages: None,
        lc_numeric: None,
    }
}

fn some(s: &str) -> Option<String> {
    Some(s.to_string())
}

fn desktop() -> HostEnv {
    HostEnv {
        home: some("/home/u"),
        xdg_runtime_dir: some("/run/user/1000"),
        wayland_display: some("wayland-0"),
        display: some(":1.0"),
        dbus_session_bus_address: some("unix:path=/run/user/1000/bus"),
        lang: some("en_US.UTF-8"),
        lc_all: None,
        lc_ctype: some("C"),
        lc_messages: None,
        lc_numeric: some("de_DE"),
    }
}

fn found(all: bool) -> Found {
    Found { runtime_dir: all, home: all, x_socket: all, dri: all, dbus_socket: all, pulse_socket: all, fonts: all }
}

fn base() -> Vec<&'static str> {
    vec![
        "--unshare-all", "--share-net", "--die-with-parent", "--ro-bind", "/", "/", "--dev", "/dev", "--proc", "/proc",
        "--tmpfs", "/tmp", "--tmpfs", "/dev/shm", "--dir", "/tmp/arch-run", "--ro-bind", "/c/.tmpX", "/tmp/arch-run",
    ]
}

fn environment() -> Vec<&'static str> {
    vec![
        "--setenv", "PATH", "/tmp/arch-run/usr/bin:/usr/local/bin:/usr/bin:/bin",
        "--setenv", "LD_LIBRARY_PATH",
        "/tmp/arch-run/usr/lib:/tmp/arch-run/usr/lib64:/tmp/arch-run/lib:/tmp/arch-run/lib64:/usr/lib:/usr/lib64:/lib:/lib64",
    ]
}

fn run(host: &HostEnv, found: &Found, gui: bool, cwd: Option<&str>) -> Vec<String> {
    let args = vec!["-x".to_string(), "y z".to_string()];
    bwrap_args("prog", &args, "/c/.tmpX", cwd, host, found, gui)
}

#[test]
fn a_plain_program_gets_the_base() {
    let mut expected = base();
    expected.extend(["--bind", "/work", "/work"]);
    expected.extend(environment());
    expected.extend(["--setenv", "HOME", "/home/u", "prog", "-x", "y z"]);
    assert_eq!(run(&desktop(), &found(true), false, Some("/work")), expected);
}

#[test]
fn what_is_missing_is_left_out() {
    let mut expected = base();
    expected.extend(environment());
    expected.extend(["prog", "-x", "y z"]);
    assert_eq!(run(&bare(), &found(true), false, None), expected);
    let mut gui = base();
    gui.extend(environment());
    gui.extend([
        "--ro-bind", "/dev/dri", "/dev/dri", "--ro-bind", "/etc/fonts", "/etc/fonts", "prog", "-x", "y z",
    ]);
    assert_eq!(run(&bare(), &found(true), true, None), gui);
}

#[test]
fn a_graphical_program_gets_the_desktop() {
    let mut expected = base();
    expected.extend(environment());
    expected.extend([
        "--setenv", "HOME", "/home/u",
        "--ro-bind", "/run/user/1000", "/run/user/1000", "--setenv", "XDG_RUNTIME_DIR", "/run/user/1000",
        "--bind", "/home/u", "/home/u",
        "--setenv", "WAYLAND_DISPLAY", "wayland-0",
        "--dir", "/tmp/.X11-unix", "--ro-bind", "/tmp/.X11-unix/X1", "/tmp/.X11-unix/X1", "--setenv", "DISPLAY", ":1.0",
        "--ro-bind", "/dev/dri", "/dev/dri",
        "--setenv", "DBUS_SESSION_BUS_ADDRESS", "unix:path=/run/user/1000/bus",
        "--setenv", "PULSE_SERVER", "unix:/run/user/1000/pulse/native",
        "--ro-bind", "/etc/fonts", "/etc/fonts",
        "--setenv", "LANG", "en_US.UTF-8", "--setenv", "LC_CTYPE", "C", "--setenv", "LC_NUMERIC", "de_DE",
        "prog", "-x", "y z",
    ]);
    assert_eq!(run(&desktop(), &found(true), true, None), expected);
}

#[test]
fn nothing_that_does_not_exist_is_mounted() {
    let mut expected = base();
    expected.extend(environment());
    expected.extend([
        "--setenv", "HOME", "/home/u",
        "--setenv", "WAYLAND_DISPLAY", "wayland-0",
        "--setenv", "DBUS_SESSION_BUS_ADDRESS", "unix:path=/run/user/1000/bus",
        "--setenv", "LANG", "en_US.UTF-8", "--setenv", "LC_CTYPE", "C", "--setenv", "LC_NUMERIC", "de_DE",
        "prog", "-x", "y z",
    ]);
    assert_eq!(run(&desktop(), &found(false), true, None), expected);
}

fn holds(args: &[String], part: &[&str]) -> bool {
    args.windows(part.len()).any(|w| w == part)
}

#[test]
fn a_bus_socket_out_of_reach_is_mounted() {
    let mut host = desktop();
    host.dbus_session_bus_address = some("unix:path=/tmp/dbus-1");
    let args = run(&host, &found(true), true, None);
    assert!(holds(&args, &["--ro-bind", "/tmp/dbus-1", "/tmp/dbus-1", "--setenv", "DBUS_SESSION_BUS_ADDRESS"]));
    host.dbus_session_bus_address = some("unix:path=/run/user/10000/bus");
    let args = run(&host, &found(true), true, None);
    assert!(holds(&args, &["--ro-bind", "/run/user/10000/bus", "/run/user/10000/bus"]));
    host.dbus_session_bus_address = some("unix:path=/run/user/1000/bus");
    let mut seen = found(true);
    seen.runtime_dir = false;
    let args = run(&host, &seen, true, None);
    assert!(holds(&args, &["--ro-bind", "/run/user/1000/bus", "/run/user/1000/bus"]));
}

#[test]
fn an_abstract_bus_address_is_forwarded() {
    let mut host = desktop();
    host.dbus_session_bus_address = some("unix:abstract=/tmp/dbus-x");
    let args = run(&host, &found(true), true, None);
    assert!(holds(&args, &["--setenv", "DBUS_SESSION_BUS_ADDRESS", "unix:abstract=/tmp/dbus-x"]));
    assert!(!args.iter().any(|a| a == "/tmp/dbus-x"));
}

#[test]
fn only_own_directories_are_writable() {
    let args = run(&desktop(), &found(true), true, Some("/work"));
    let binds: Vec<&String> =
        args.iter().zip(args.iter().skip(1)).filter(|(a, _)| *a == "--bind").map(|(_, b)| b).collect();
    assert_eq!(binds, vec!["/work", "/home/u"]);
}

#[test]
fn sockets_are_found_by_their_names() {
    assert_eq!(x_socket(":0"), "/tmp/.X11-unix/X0");
    assert_eq!(x_socket(":12.3"), "/tmp/.X11-unix/X12");
    assert_eq!(x_socket("host:0.0"), "/tmp/.X11-unix/Xhost:0");
    assert_eq!(x_socket(""), "/tmp/.X11-unix/X");
    assert_eq!(dbus_socket("unix:path=/a,guid=1"), some("/a,guid=1"));
    assert_eq!(dbus_socket("tcp:host=x"), None);
    assert_eq!(pulse_socket("/run/user/1"), "/run/user/1/pulse/native");
    assert_eq!(pulse_socket("/run/"), "/run/pulse/native");
    assert_eq!(pulse_socket(""), "pulse/native");
}

#[test]
fn the_probed_paths_are_those_of_the_environment() {
    let paths = probe_paths(&desktop());
    assert_eq!(paths.runtime_dir, some("/run/user/1000"));
    assert_eq!(paths.home, some("/home/u"));
    assert_eq!(paths.x_socket, some("/tmp/.X11-unix/X1"));
    assert_eq!(paths.dri, "/dev/dri");
    assert_eq!(paths.dbus_socket, some("/run/user/1000/bus"));
    assert_eq!(paths.pulse_socket, some("/run/user/1000/pulse/native"));
    assert_eq!(paths.fonts, "/etc/fonts");
    let paths = probe_paths(&bare());
    assert_eq!((paths.runtime_dir, paths.home, paths.x_socket), (None, None, None));
    assert_eq!((paths.dbus_socket, paths.pulse_socket), (None, None));
}

#[test]
fn paths_that_are_no_text_are_repaired() {
    let engine = CoreEngine { cache_root: b"/c".to_vec() };
    let args = engine.execute_sandbox("p", b"/c/\xff", &Some(b"/w\xfe".to_vec()), &[], false, &bare(), &found(false));
    assert!(holds(&args, &["--ro-bind", "/c/\u{fffd}", "/tmp/arch-run"]));
    assert!(holds(&args, &["--bind", "/w\u{fffd}", "/w\u{fffd}"]));
    assert_eq!(args.last().unwrap(), "p");
    let args = engine.execute_sandbox("p", b"/c/x", &None, &[], false, &bare(), &found(false));
    assert!(!args.iter().any(|a| a == "--bind"));
}

#[test]
fn a_failed_program_is_reported() {
    assert!(CoreEngine::sandbox_result("p", true, "exit status: 0").is_ok());
    let error = CoreEngine::sandbox_result("p", false, "exit status: 3").unwrap_err();
    assert!(matches!(error, EngineError::SandboxFailed { .. }));
    assert_eq!(error.message(), "Sandbox execution failed for 'p' with exit status exit status: 3");
}
