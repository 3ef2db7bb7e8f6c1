//! The sandbox: the command line with which `bwrap` runs a program.

use crate::engine::{CoreEngine, EngineError};
use crate::outside::{lossy, text_of};
use crate::paths::{is_under, join_text, law_joining_texts_sets_one_separator, lies_under};
use crate::text::{
    before_first, behind_prefix, chars_of, head_before, law_head_stands_before_the_first,
    law_leading_characters_are_left_out, law_prefix_and_rest, opt_str, opt_text, skip_leading,
    strip_text, texts, without_leading,
};
use vstd::prelude::*;
use vstd::utf8::encode_utf8;

verus! {

/// What the program's own environment holds.
#[derive(Debug)]
pub struct HostEnv {
    pub home: Option<String>,
    pub xdg_runtime_dir: Option<String>,
    pub wayland_display: Option<String>,
    pub display: Option<String>,
    pub dbus_session_bus_address: Option<String>,
    pub lang: Option<String>,
    pub lc_all: Option<String>,
    pub lc_ctype: Option<String>,
    pub lc_messages: Option<String>,
    pub lc_numeric: Option<String>,
}

/// The paths whose existence decides what a graphical program gets.
#[derive(Debug)]
pub struct ProbePaths {
    pub runtime_dir: Option<String>,
    pub home: Option<String>,
    pub x_socket: Option<String>,
    pub dri: String,
    pub dbus_socket: Option<String>,
    pub pulse_socket: Option<String>,
    pub fonts: String,
}

/// Which of the probed paths exist.
#[derive(Debug)]
pub struct Found {
    pub runtime_dir: bool,
    pub home: bool,
    pub x_socket: bool,
    pub dri: bool,
    pub dbus_socket: bool,
    pub pulse_socket: bool,
    pub fonts: bool,
}

/// The X server's socket for a display such as `:0` or `:0.1`.
pub open spec fn x_socket_path(display: Seq<char>) -> Seq<char> {
    "/tmp/.X11-unix/X"@ + before_first(without_leading(display, ':'), '.')
}

/// The file that a D-Bus address names, if it names one.
pub open spec fn dbus_socket_path(address: Seq<char>) -> Option<Seq<char>> {
    behind_prefix(address, "unix:path="@)
}

/// The PulseAudio socket in a runtime directory.
pub open spec fn pulse_socket_path(runtime_dir: Seq<char>) -> Seq<char> {
    join_text(runtime_dir, "pulse/native"@)
}

pub open spec fn bind(path: Seq<char>) -> Seq<Seq<char>> {
    seq!["--bind"@, path, path]
}

pub open spec fn ro_bind(path: Seq<char>) -> Seq<Seq<char>> {
    seq!["--ro-bind"@, path, path]
}

pub open spec fn setenv(name: Seq<char>, value: Seq<char>) -> Seq<Seq<char>> {
    seq!["--setenv"@, name, value]
}

/// `options`, where the condition holds.
pub open spec fn only_if(condition: bool, options: Seq<Seq<char>>) -> Seq<Seq<char>> {
    if condition {
        options
    } else {
        seq![]
    }
}

/// Sets a variable, where there is a value for it.
pub open spec fn forward(name: Seq<char>, value: Option<String>) -> Seq<Seq<char>> {
    match value {
        Some(v) => setenv(name, v@),
        None => seq![],
    }
}

/// The search path for programs.
pub open spec fn program_path() -> Seq<char> {
    "/tmp/arch-run/usr/bin:/usr/local/bin:/usr/bin:/bin"@
}

/// The search path for libraries: those of the packages, then those of the host.
pub open spec fn library_path() -> Seq<char> {
    "/tmp/arch-run/usr/lib:/tmp/arch-run/usr/lib64:/tmp/arch-run/lib:/tmp/arch-run/lib64:/usr/lib:/usr/lib64:/lib:/lib64"@
}

/// Fresh namespaces, but for the network.
pub open spec fn isolation() -> Seq<Seq<char>> {
    seq!["--unshare-all"@, "--share-net"@, "--die-with-parent"@]
}

/// The host's files, read-only, with what must be the sandbox's own laid over them.
pub open spec fn mounts() -> Seq<Seq<char>> {
    seq!["--ro-bind"@, "/"@, "/"@] + seq![
        "--dev"@,
        "/dev"@,
        "--proc"@,
        "/proc"@,
        "--tmpfs"@,
        "/tmp"@,
        "--tmpfs"@,
        "/dev/shm"@,
    ]
}

/// The merged package layers, read-only.
pub open spec fn overlay(farm: Seq<char>) -> Seq<Seq<char>> {
    seq!["--dir"@, "/tmp/arch-run"@] + seq!["--ro-bind"@, farm, "/tmp/arch-run"@]
}

/// The working directory, writable.
pub open spec fn working_dir(cwd: Option<Seq<char>>) -> Seq<Seq<char>> {
    match cwd {
        Some(dir) => bind(dir),
        None => seq![],
    }
}

pub open spec fn environment(home: Option<String>) -> Seq<Seq<char>> {
    setenv("PATH"@, program_path()) + setenv("LD_LIBRARY_PATH"@, library_path()) + forward(
        "HOME"@,
        home,
    )
}

/// The runtime directory, with the sockets in it.
pub open spec fn runtime_options(host: HostEnv, found: Found) -> Seq<Seq<char>> {
    match host.xdg_runtime_dir {
        Some(dir) => only_if(found.runtime_dir, ro_bind(dir@) + setenv("XDG_RUNTIME_DIR"@, dir@)),
        None => seq![],
    }
}

/// The home directory, writable.
pub open spec fn home_options(host: HostEnv, found: Found) -> Seq<Seq<char>> {
    match host.home {
        Some(dir) => only_if(found.home, bind(dir@)),
        None => seq![],
    }
}

/// The X server's socket and display.
pub open spec fn x11_options(host: HostEnv, found: Found) -> Seq<Seq<char>> {
    match host.display {
        Some(display) => only_if(
            found.x_socket,
            seq!["--dir"@, "/tmp/.X11-unix"@] + ro_bind(x_socket_path(display@)) + setenv(
                "DISPLAY"@,
                display@,
            ),
        ),
        None => seq![],
    }
}

/// Whether a socket can be reached through the runtime directory's own mount.
pub open spec fn in_bound_runtime_dir(path: Seq<char>, host: HostEnv, found: Found) -> bool {
    match host.xdg_runtime_dir {
        Some(dir) => found.runtime_dir && lies_under(encode_utf8(path), encode_utf8(dir@)),
        None => false,
    }
}

/// The session bus: its socket, where that is a file out of reach, and its address.
pub open spec fn dbus_options(host: HostEnv, found: Found) -> Seq<Seq<char>> {
    match host.dbus_session_bus_address {
        Some(address) => (match dbus_socket_path(address@) {
            Some(path) => only_if(
                !in_bound_runtime_dir(path, host, found) && found.dbus_socket,
                ro_bind(path),
            ),
            None => seq![],
        }) + setenv("DBUS_SESSION_BUS_ADDRESS"@, address@),
        None => seq![],
    }
}

/// The address of the PulseAudio server.
pub open spec fn pulse_options(host: HostEnv, found: Found) -> Seq<Seq<char>> {
    match host.xdg_runtime_dir {
        Some(dir) => only_if(
            found.pulse_socket,
            setenv("PULSE_SERVER"@, "unix:"@ + pulse_socket_path(dir@)),
        ),
        None => seq![],
    }
}

pub open spec fn locale_options(host: HostEnv) -> Seq<Seq<char>> {
    forward("LANG"@, host.lang) + forward("LC_ALL"@, host.lc_all) + forward(
        "LC_CTYPE"@,
        host.lc_ctype,
    ) + forward("LC_MESSAGES"@, host.lc_messages) + forward("LC_NUMERIC"@, host.lc_numeric)
}

/// What a graphical program gets beyond the rest.
pub open spec fn gui_options(host: HostEnv, found: Found) -> Seq<Seq<char>> {
    runtime_options(host, found) + home_options(host, found) + forward(
        "WAYLAND_DISPLAY"@,
        host.wayland_display,
    ) + x11_options(host, found) + only_if(found.dri, ro_bind("/dev/dri"@)) + dbus_options(
        host,
        found,
    ) + pulse_options(host, found) + only_if(found.fonts, ro_bind("/etc/fonts"@)) + locale_options(
        host,
    )
}

/// All options of `bwrap`.
pub open spec fn sandbox_options(
    farm: Seq<char>,
    cwd: Option<Seq<char>>,
    host: HostEnv,
    found: Found,
    gui: bool,
) -> Seq<Seq<char>> {
    isolation() + mounts() + overlay(farm) + working_dir(cwd) + environment(host.home) + only_if(
        gui,
        gui_options(host, found),
    )
}

/// The whole command line of `bwrap`: its options, the program, the program's
/// arguments.
pub open spec fn sandbox_command(
    entry_point: Seq<char>,
    args: Seq<Seq<char>>,
    farm: Seq<char>,
    cwd: Option<Seq<char>>,
    host: HostEnv,
    found: Found,
    gui: bool,
) -> Seq<Seq<char>> {
    sandbox_options(farm, cwd, host, found, gui).push(entry_point) + args
}

/// Appends one argument.
fn push_text(out: &mut Vec<String>, s: &str)
    ensures
        texts(final(out)@) == texts(old(out)@).push(s@),
{
    out.push(s.to_owned());
    assert(texts(out@) == texts(old(out)@).push(s@));
}

fn push_two(out: &mut Vec<String>, a: &str, b: &str)
    ensures
        texts(final(out)@) == texts(old(out)@) + seq![a@, b@],
{
    push_text(out, a);
    push_text(out, b);
    assert(texts(out@) == texts(old(out)@) + seq![a@, b@]);
}

fn push_three(out: &mut Vec<String>, a: &str, b: &str, c: &str)
    ensures
        texts(final(out)@) == texts(old(out)@) + seq![a@, b@, c@],
{
    push_two(out, a, b);
    push_text(out, c);
    assert(texts(out@) == texts(old(out)@) + seq![a@, b@, c@]);
}

fn push_forward(out: &mut Vec<String>, name: &str, value: &Option<String>)
    ensures
        texts(final(out)@) == texts(old(out)@) + forward(name@, *value),
{
    match value {
        Some(v) => push_three(out, "--setenv", name, v.as_str()),
        None => {
            assert(texts(out@) + Seq::<Seq<char>>::empty() == texts(out@));
        },
    }
}

/// The X server's socket for a display.
pub fn x_socket(display: &str) -> (path: String)
    ensures
        path@ == x_socket_path(display@),
{
    let number = head_before(skip_leading(display, ':').as_str(), '.');
    "/tmp/.X11-unix/X".to_owned().concat(number.as_str())
}

/// The file that a D-Bus address names, if it names one.
pub fn dbus_socket(address: &str) -> (path: Option<String>)
    ensures
        opt_text(path) == dbus_socket_path(address@),
{
    strip_text(address, "unix:path=")
}

/// The PulseAudio socket in a runtime directory.
pub fn pulse_socket(runtime_dir: &str) -> (path: String)
    ensures
        path@ == pulse_socket_path(runtime_dir@),
{
    proof {
        reveal_strlit("pulse/native");
    }
    let v = chars_of(runtime_dir);
    let mut path = runtime_dir.to_owned();
    if v.len() > 0 && v[v.len() - 1] != '/' {
        path.append("/");
    }
    path.append("pulse/native");
    path
}

/// The paths whose existence is to be looked up for a graphical program.
pub fn probe_paths(host: &HostEnv) -> (paths: ProbePaths)
    ensures
        opt_text(paths.runtime_dir) == opt_text(host.xdg_runtime_dir),
        opt_text(paths.home) == opt_text(host.home),
        opt_text(paths.x_socket) == (match host.display {
            Some(display) => Some(x_socket_path(display@)),
            None => None,
        }),
        paths.dri@ == "/dev/dri"@,
        opt_text(paths.dbus_socket) == (match host.dbus_session_bus_address {
            Some(address) => dbus_socket_path(address@),
            None => None,
        }),
        opt_text(paths.pulse_socket) == (match host.xdg_runtime_dir {
            Some(dir) => Some(pulse_socket_path(dir@)),
            None => None,
        }),
        paths.fonts@ == "/etc/fonts"@,
{
    ProbePaths {
        runtime_dir: host.xdg_runtime_dir.clone(),
        home: host.home.clone(),
        x_socket: match &host.display {
            Some(display) => Some(x_socket(display.as_str())),
            None => None,
        },
        dri: "/dev/dri".to_owned(),
        dbus_socket: match &host.dbus_session_bus_address {
            Some(address) => dbus_socket(address.as_str()),
            None => None,
        },
        pulse_socket: match &host.xdg_runtime_dir {
            Some(dir) => Some(pulse_socket(dir.as_str())),
            None => None,
        },
        fonts: "/etc/fonts".to_owned(),
    }
}

fn push_runtime(out: &mut Vec<String>, host: &HostEnv, found: &Found)
    ensures
        texts(final(out)@) == texts(old(out)@) + runtime_options(*host, *found),
{
    if let Some(dir) = &host.xdg_runtime_dir {
        if found.runtime_dir {
            push_three(out, "--ro-bind", dir.as_str(), dir.as_str());
            push_three(out, "--setenv", "XDG_RUNTIME_DIR", dir.as_str());
        }
    }
    assert(texts(out@) == texts(old(out)@) + runtime_options(*host, *found));
}

fn push_home(out: &mut Vec<String>, host: &HostEnv, found: &Found)
    ensures
        texts(final(out)@) == texts(old(out)@) + home_options(*host, *found),
{
    if let Some(dir) = &host.home {
        if found.home {
            push_three(out, "--bind", dir.as_str(), dir.as_str());
        }
    }
    assert(texts(out@) == texts(old(out)@) + home_options(*host, *found));
}

fn push_x11(out: &mut Vec<String>, host: &HostEnv, found: &Found)
    ensures
        texts(final(out)@) == texts(old(out)@) + x11_options(*host, *found),
{
    if let Some(display) = &host.display {
        if found.x_socket {
            let socket = x_socket(display.as_str());
            push_two(out, "--dir", "/tmp/.X11-unix");
            push_three(out, "--ro-bind", socket.as_str(), socket.as_str());
            push_three(out, "--setenv", "DISPLAY", display.as_str());
        }
    }
    assert(texts(out@) == texts(old(out)@) + x11_options(*host, *found));
}

fn push_ro_bind_if(out: &mut Vec<String>, condition: bool, path: &str)
    ensures
        texts(final(out)@) == texts(old(out)@) + only_if(condition, ro_bind(path@)),
{
    if condition {
        push_three(out, "--ro-bind", path, path);
    }
    assert(texts(out@) == texts(old(out)@) + only_if(condition, ro_bind(path@)));
}

fn push_dbus(out: &mut Vec<String>, host: &HostEnv, found: &Found)
    ensures
        texts(final(out)@) == texts(old(out)@) + dbus_options(*host, *found),
{
    if let Some(address) = &host.dbus_session_bus_address {
        if let Some(path) = dbus_socket(address.as_str()) {
            let reachable = match &host.xdg_runtime_dir {
                Some(dir) => found.runtime_dir && is_under(
                    path.as_str().as_bytes(),
                    dir.as_str().as_bytes(),
                ),
                None => false,
            };
            push_ro_bind_if(out, !reachable && found.dbus_socket, path.as_str());
        }
        push_three(out, "--setenv", "DBUS_SESSION_BUS_ADDRESS", address.as_str());
    }
    assert(texts(out@) == texts(old(out)@) + dbus_options(*host, *found));
}

fn push_pulse(out: &mut Vec<String>, host: &HostEnv, found: &Found)
    ensures
        texts(final(out)@) == texts(old(out)@) + pulse_options(*host, *found),
{
    if let Some(dir) = &host.xdg_runtime_dir {
        if found.pulse_socket {
            let socket = pulse_socket(dir.as_str());
            let server = "unix:".to_owned().concat(socket.as_str());
            push_three(out, "--setenv", "PULSE_SERVER", server.as_str());
        }
    }
    assert(texts(out@) == texts(old(out)@) + pulse_options(*host, *found));
}

fn push_locale(out: &mut Vec<String>, host: &HostEnv)
    ensures
        texts(final(out)@) == texts(old(out)@) + locale_options(*host),
{
    push_forward(out, "LANG", &host.lang);
    push_forward(out, "LC_ALL", &host.lc_all);
    push_forward(out, "LC_CTYPE", &host.lc_ctype);
    push_forward(out, "LC_MESSAGES", &host.lc_messages);
    push_forward(out, "LC_NUMERIC", &host.lc_numeric);
    assert(texts(out@) == texts(old(out)@) + locale_options(*host));
}

/// Appending one by one is appending at once.
proof fn lemma_appended(start: Seq<Seq<char>>, a: Seq<Seq<char>>, b: Seq<Seq<char>>)
    ensures
        (start + a) + b == start + (a + b),
{
    assert((start + a) + b =~= start + (a + b));
}

fn push_gui(out: &mut Vec<String>, host: &HostEnv, found: &Found)
    ensures
        texts(final(out)@) == texts(old(out)@) + gui_options(*host, *found),
{
    let ghost start = texts(out@);
    push_runtime(out, host, found);
    let ghost so_far = runtime_options(*host, *found);
    push_home(out, host, found);
    proof {
        lemma_appended(start, so_far, home_options(*host, *found));
    }
    let ghost so_far = so_far + home_options(*host, *found);
    push_forward(out, "WAYLAND_DISPLAY", &host.wayland_display);
    proof {
        lemma_appended(start, so_far, forward("WAYLAND_DISPLAY"@, host.wayland_display));
    }
    let ghost so_far = so_far + forward("WAYLAND_DISPLAY"@, host.wayland_display);
    push_x11(out, host, found);
    proof {
        lemma_appended(start, so_far, x11_options(*host, *found));
    }
    let ghost so_far = so_far + x11_options(*host, *found);
    push_ro_bind_if(out, found.dri, "/dev/dri");
    proof {
        lemma_appended(start, so_far, only_if(found.dri, ro_bind("/dev/dri"@)));
    }
    let ghost so_far = so_far + only_if(found.dri, ro_bind("/dev/dri"@));
    push_dbus(out, host, found);
    proof {
        lemma_appended(start, so_far, dbus_options(*host, *found));
    }
    let ghost so_far = so_far + dbus_options(*host, *found);
    push_pulse(out, host, found);
    proof {
        lemma_appended(start, so_far, pulse_options(*host, *found));
    }
    let ghost so_far = so_far + pulse_options(*host, *found);
    push_ro_bind_if(out, found.fonts, "/etc/fonts");
    proof {
        lemma_appended(start, so_far, only_if(found.fonts, ro_bind("/etc/fonts"@)));
    }
    let ghost so_far = so_far + only_if(found.fonts, ro_bind("/etc/fonts"@));
    push_locale(out, host);
    proof {
        lemma_appended(start, so_far, locale_options(*host));
    }
}

fn push_base(out: &mut Vec<String>, farm: &str, cwd: Option<&str>, home: &Option<String>)
    ensures
        texts(final(out)@) == texts(old(out)@) + (isolation() + mounts() + overlay(farm@)
            + working_dir(opt_str(cwd)) + environment(*home)),
{
    push_three(out, "--unshare-all", "--share-net", "--die-with-parent");
    push_three(out, "--ro-bind", "/", "/");
    push_two(out, "--dev", "/dev");
    push_two(out, "--proc", "/proc");
    push_two(out, "--tmpfs", "/tmp");
    push_two(out, "--tmpfs", "/dev/shm");
    push_two(out, "--dir", "/tmp/arch-run");
    push_three(out, "--ro-bind", farm, "/tmp/arch-run");
    if let Some(dir) = cwd {
        push_three(out, "--bind", dir, dir);
    }
    assert(texts(out@) == texts(old(out)@) + (isolation() + mounts() + overlay(farm@)
        + working_dir(opt_str(cwd))));
    let ghost before = texts(out@);
    push_three(
        out,
        "--setenv",
        "PATH",
        "/tmp/arch-run/usr/bin:/usr/local/bin:/usr/bin:/bin",
    );
    push_three(
        out,
        "--setenv",
        "LD_LIBRARY_PATH",
        "/tmp/arch-run/usr/lib:/tmp/arch-run/usr/lib64:/tmp/arch-run/lib:/tmp/arch-run/lib64:/usr/lib:/usr/lib64:/lib:/lib64",
    );
    push_forward(out, "HOME", home);
    assert(texts(out@) == before + environment(*home));
    assert(texts(out@) == texts(old(out)@) + (isolation() + mounts() + overlay(farm@)
        + working_dir(opt_str(cwd)) + environment(*home)));
}

/// The whole command line of `bwrap`.
pub fn bwrap_args(
    entry_point: &str,
    args: &[String],
    farm: &str,
    cwd: Option<&str>,
    host: &HostEnv,
    found: &Found,
    gui: bool,
) -> (out: Vec<String>)
    ensures
        texts(out@) == sandbox_command(
            entry_point@,
            texts(args@),
            farm@,
            opt_str(cwd),
            *host,
            *found,
            gui,
        ),
{
    let mut out: Vec<String> = Vec::new();
    assert(texts(out@) == Seq::<Seq<char>>::empty());
    push_base(&mut out, farm, cwd, &host.home);
    if gui {
        push_gui(&mut out, host, found);
    }
    let ghost options = sandbox_options(farm@, opt_str(cwd), *host, *found, gui);
    assert(texts(out@) == options);
    push_text(&mut out, entry_point);
    let ghost head = options.push(entry_point@);
    assert(head + texts(args@).take(0) == head);
    for i in 0..args.len()
        invariant
            texts(out@) == head + texts(args@).take(i as int),
    {
        assert(texts(args@).take(i + 1) == texts(args@).take(i as int).push(args@[i as int]@));
        let ghost before = texts(out@);
        push_text(&mut out, args[i].as_str());
        assert(before.push(args@[i as int]@) == head + texts(args@).take(i + 1));
    }
    assert(texts(args@).take(args@.len() as int) == texts(args@));
    out
}

/// Bytes read as text, where there are any.
pub open spec fn opt_lossy(path: Option<Vec<u8>>) -> Option<Seq<char>> {
    match path {
        Some(p) => Some(lossy(p@)),
        None => None,
    }
}

impl CoreEngine {
    /// The command line of `bwrap` for a program, with the merged layers at
    /// `farm_path`.
    pub fn execute_sandbox(
        &self,
        entry_point: &str,
        farm_path: &[u8],
        cwd: &Option<Vec<u8>>,
        args: &[String],
        gui: bool,
        host: &HostEnv,
        found: &Found,
    ) -> (out: Vec<String>)
        ensures
            texts(out@) == sandbox_command(
                entry_point@,
                texts(args@),
                lossy(farm_path@),
                opt_lossy(*cwd),
                *host,
                *found,
                gui,
            ),
    {
        let farm = text_of(farm_path);
        match cwd {
            Some(path) => {
                let dir = text_of(path.as_slice());
                bwrap_args(entry_point, args, farm.as_str(), Some(dir.as_str()), host, found, gui)
            },
            None => bwrap_args(entry_point, args, farm.as_str(), None, host, found, gui),
        }
    }

    /// What a run of the sandbox comes to, from the program's exit status.
    pub fn sandbox_result(entry_point: &str, success: bool, status: &str) -> (r: Result<
        (),
        EngineError,
    >)
        ensures
            r is Ok <==> success,
            r matches Err(e) ==> (e matches EngineError::SandboxFailed {
                entry_point: program,
                status: shown,
            } && program@ == entry_point@ && shown@ == status@),
    {
        if success {
            Ok(())
        } else {
            Err(
                EngineError::SandboxFailed {
                    entry_point: entry_point.to_owned(),
                    status: status.to_owned(),
                },
            )
        }
    }
}

/// The program and its arguments stand at the end of the command line, unchanged.
pub proof fn law_program_comes_last(
    entry_point: Seq<char>,
    args: Seq<Seq<char>>,
    farm: Seq<char>,
    cwd: Option<Seq<char>>,
    host: HostEnv,
    found: Found,
    gui: bool,
)
    ensures
        ({
            let command = sandbox_command(entry_point, args, farm, cwd, host, found, gui);
            let n = sandbox_options(farm, cwd, host, found, gui).len() as int;
            &&& command.len() == n + 1 + args.len()
            &&& command.take(n) == sandbox_options(farm, cwd, host, found, gui)
            &&& command[n] == entry_point
            &&& command.skip(n + 1) == args
        }),
{
    let command = sandbox_command(entry_point, args, farm, cwd, host, found, gui);
    let options = sandbox_options(farm, cwd, host, found, gui);
    assert(command.take(options.len() as int) =~= options);
    assert(command.skip(options.len() + 1 as int) =~= args);
}

/// The host's files are mounted read-only, and before anything else is mounted, so
/// that every other mount lies over them.
pub proof fn law_host_root_is_mounted_first(
    farm: Seq<char>,
    cwd: Option<Seq<char>>,
    host: HostEnv,
    found: Found,
    gui: bool,
)
    ensures
        sandbox_options(farm, cwd, host, found, gui).take(6) == isolation() + ro_bind("/"@),
        sandbox_options(farm, cwd, host, found, gui).subrange(6, 19) == mounts().skip(3) + overlay(
            farm,
        ),
{
    let options = sandbox_options(farm, cwd, host, found, gui);
    assert(options.take(6) =~= isolation() + ro_bind("/"@));
    assert(options.subrange(6, 19) =~= mounts().skip(3) + overlay(farm));
}

/// A program that is not graphical gets nothing that depends on the display, the
/// sound, the session bus or the locale of the host.
pub proof fn law_plain_program_gets_no_desktop(
    farm: Seq<char>,
    cwd: Option<Seq<char>>,
    host: HostEnv,
    found: Found,
)
    ensures
        sandbox_options(farm, cwd, host, found, false) == isolation() + mounts() + overlay(farm)
            + working_dir(cwd) + environment(host.home),
        sandbox_options(farm, cwd, host, found, false).is_prefix_of(
            sandbox_options(farm, cwd, host, found, true),
        ),
{
    let plain = sandbox_options(farm, cwd, host, found, false);
    let base = isolation() + mounts() + overlay(farm) + working_dir(cwd) + environment(host.home);
    assert(plain =~= base);
    let full = sandbox_options(farm, cwd, host, found, true);
    assert(plain =~= full.subrange(0, plain.len() as int));
}

/// Whether `part` stands somewhere in `whole`, in one piece.
#[verifier::opaque]
pub open spec fn occurs_in(part: Seq<Seq<char>>, whole: Seq<Seq<char>>) -> bool {
    exists|i: int| 0 <= i <= whole.len() - part.len() && #[trigger] whole.subrange(
        i,
        i + part.len(),
    ) == part
}

/// A graphical program learns the session bus's address, whatever kind it is of.
pub proof fn law_bus_address_is_forwarded(
    farm: Seq<char>,
    cwd: Option<Seq<char>>,
    host: HostEnv,
    found: Found,
)
    requires
        host.dbus_session_bus_address is Some,
    ensures
        occurs_in(
            setenv("DBUS_SESSION_BUS_ADDRESS"@, host.dbus_session_bus_address->0@),
            sandbox_options(farm, cwd, host, found, true),
        ),
{
    let part = setenv("DBUS_SESSION_BUS_ADDRESS"@, host.dbus_session_bus_address->0@);
    let base = isolation() + mounts() + overlay(farm) + working_dir(cwd) + environment(host.home);
    let front = runtime_options(host, found) + home_options(host, found) + forward(
        "WAYLAND_DISPLAY"@,
        host.wayland_display,
    ) + x11_options(host, found) + only_if(found.dri, ro_bind("/dev/dri"@));
    let bus = dbus_options(host, found);
    let whole = sandbox_options(farm, cwd, host, found, true);
    let i = base.len() + front.len() + bus.len() - 3;
    assert(bus.subrange(bus.len() - 3, bus.len() as int) =~= part);
    assert(whole.subrange(i, i + 3) =~= part);
    reveal(occurs_in);
}

/// Whether no item is the option for a writable mount.
pub open spec fn mounts_nothing_writable(options: Seq<Seq<char>>) -> bool {
    forall|i: int| 0 <= i < options.len() ==> #[trigger] options[i] != "--bind"@
}

/// Whether a value cannot be taken for the option for a writable mount.
pub open spec fn is_no_bind(value: Option<String>) -> bool {
    value matches Some(v) ==> v@ != "--bind"@
}

/// Whether no value that is passed on can be taken for that option.
pub open spec fn has_no_bind(host: HostEnv) -> bool {
    &&& is_no_bind(host.home)
    &&& is_no_bind(host.xdg_runtime_dir)
    &&& is_no_bind(host.wayland_display)
    &&& is_no_bind(host.display)
    &&& is_no_bind(host.dbus_session_bus_address)
    &&& (host.dbus_session_bus_address matches Some(address) ==> dbus_socket_path(address@)
        != Some("--bind"@))
    &&& is_no_bind(host.lang)
    &&& is_no_bind(host.lc_all)
    &&& is_no_bind(host.lc_ctype)
    &&& is_no_bind(host.lc_messages)
    &&& is_no_bind(host.lc_numeric)
}

proof fn lemma_is_no_bind(s: Seq<char>)
    requires
        s.len() != 6 || s[0] != '-' || s[2] != 'b',
    ensures
        s != "--bind"@,
{
    reveal_strlit("--bind");
    assert("--bind"@.len() == 6 && "--bind"@[0] == '-' && "--bind"@[2] == 'b');
}

proof fn lemma_nothing_writable(a: Seq<Seq<char>>, b: Seq<Seq<char>>)
    requires
        mounts_nothing_writable(a),
        mounts_nothing_writable(b),
    ensures
        mounts_nothing_writable(a + b),
{
    assert forall|i: int| 0 <= i < (a + b).len() implies #[trigger] (a + b)[i] != "--bind"@ by {
        if i < a.len() {
            assert((a + b)[i] == a[i]);
        } else {
            assert((a + b)[i] == b[i - a.len()]);
        }
    }
}

proof fn lemma_setenv_mounts_nothing(name: Seq<char>, value: Seq<char>)
    requires
        name != "--bind"@,
        value != "--bind"@,
    ensures
        mounts_nothing_writable(setenv(name, value)),
{
    reveal_strlit("--setenv");
    lemma_is_no_bind("--setenv"@);
}

proof fn lemma_forward_mounts_nothing(name: Seq<char>, value: Option<String>)
    requires
        name != "--bind"@,
        is_no_bind(value),
    ensures
        mounts_nothing_writable(forward(name, value)),
{
    if let Some(v) = value {
        lemma_setenv_mounts_nothing(name, v@);
    }
}

proof fn lemma_ro_bind_is_not_writable(path: Seq<char>)
    requires
        path != "--bind"@,
    ensures
        mounts_nothing_writable(ro_bind(path)),
{
    reveal_strlit("--ro-bind");
    lemma_is_no_bind("--ro-bind"@);
}

proof fn lemma_base_mounts_nothing(farm: Seq<char>, home: Option<String>)
    requires
        farm != "--bind"@,
        is_no_bind(home),
    ensures
        mounts_nothing_writable(isolation() + mounts() + overlay(farm)),
        mounts_nothing_writable(environment(home)),
{
    reveal_strlit("--unshare-all");
    lemma_is_no_bind("--unshare-all"@);
    reveal_strlit("--share-net");
    lemma_is_no_bind("--share-net"@);
    reveal_strlit("--die-with-parent");
    lemma_is_no_bind("--die-with-parent"@);
    reveal_strlit("--ro-bind");
    lemma_is_no_bind("--ro-bind"@);
    reveal_strlit("/");
    lemma_is_no_bind("/"@);
    reveal_strlit("--dev");
    lemma_is_no_bind("--dev"@);
    reveal_strlit("/dev");
    lemma_is_no_bind("/dev"@);
    reveal_strlit("--proc");
    lemma_is_no_bind("--proc"@);
    reveal_strlit("/proc");
    lemma_is_no_bind("/proc"@);
    reveal_strlit("--tmpfs");
    lemma_is_no_bind("--tmpfs"@);
    reveal_strlit("/tmp");
    lemma_is_no_bind("/tmp"@);
    reveal_strlit("/dev/shm");
    lemma_is_no_bind("/dev/shm"@);
    reveal_strlit("--dir");
    lemma_is_no_bind("--dir"@);
    reveal_strlit("/tmp/arch-run");
    lemma_is_no_bind("/tmp/arch-run"@);
    assert(mounts_nothing_writable(isolation()));
    assert(mounts_nothing_writable(mounts()));
    assert(mounts_nothing_writable(overlay(farm)));
    lemma_nothing_writable(isolation(), mounts());
    lemma_nothing_writable(isolation() + mounts(), overlay(farm));
    reveal_strlit("PATH");
    lemma_is_no_bind("PATH"@);
    reveal_strlit("LD_LIBRARY_PATH");
    lemma_is_no_bind("LD_LIBRARY_PATH"@);
    reveal_strlit("HOME");
    lemma_is_no_bind("HOME"@);
    reveal_strlit("/tmp/arch-run/usr/bin:/usr/local/bin:/usr/bin:/bin");
    lemma_is_no_bind("/tmp/arch-run/usr/bin:/usr/local/bin:/usr/bin:/bin"@);
    reveal_strlit(
        "/tmp/arch-run/usr/lib:/tmp/arch-run/usr/lib64:/tmp/arch-run/lib:/tmp/arch-run/lib64:/usr/lib:/usr/lib64:/lib:/lib64",
    );
    lemma_is_no_bind(library_path());
    lemma_setenv_mounts_nothing("PATH"@, program_path());
    lemma_setenv_mounts_nothing("LD_LIBRARY_PATH"@, library_path());
    lemma_forward_mounts_nothing("HOME"@, home);
    lemma_nothing_writable(
        setenv("PATH"@, program_path()),
        setenv("LD_LIBRARY_PATH"@, library_path()),
    );
    lemma_nothing_writable(
        setenv("PATH"@, program_path()) + setenv("LD_LIBRARY_PATH"@, library_path()),
        forward("HOME"@, home),
    );
}

proof fn lemma_runtime_mounts_nothing(host: HostEnv, found: Found)
    requires
        has_no_bind(host),
    ensures
        mounts_nothing_writable(runtime_options(host, found)),
{
    if let Some(dir) = host.xdg_runtime_dir {
        reveal_strlit("XDG_RUNTIME_DIR");
        lemma_is_no_bind("XDG_RUNTIME_DIR"@);
        lemma_ro_bind_is_not_writable(dir@);
        lemma_setenv_mounts_nothing("XDG_RUNTIME_DIR"@, dir@);
        lemma_nothing_writable(ro_bind(dir@), setenv("XDG_RUNTIME_DIR"@, dir@));
    }
}

proof fn lemma_x11_mounts_nothing(host: HostEnv, found: Found)
    requires
        has_no_bind(host),
    ensures
        mounts_nothing_writable(x11_options(host, found)),
{
    if let Some(display) = host.display {
        reveal_strlit("DISPLAY");
        lemma_is_no_bind("DISPLAY"@);
        reveal_strlit("--dir");
        lemma_is_no_bind("--dir"@);
        reveal_strlit("/tmp/.X11-unix");
        lemma_is_no_bind("/tmp/.X11-unix"@);
        reveal_strlit("/tmp/.X11-unix/X");
        let socket = x_socket_path(display@);
        assert(socket[0] == '/');
        lemma_is_no_bind(socket);
        lemma_ro_bind_is_not_writable(socket);
        lemma_setenv_mounts_nothing("DISPLAY"@, display@);
        let dir = seq!["--dir"@, "/tmp/.X11-unix"@];
        lemma_nothing_writable(dir, ro_bind(socket));
        lemma_nothing_writable(dir + ro_bind(socket), setenv("DISPLAY"@, display@));
    }
}

proof fn lemma_dbus_mounts_nothing(host: HostEnv, found: Found)
    requires
        has_no_bind(host),
    ensures
        mounts_nothing_writable(dbus_options(host, found)),
{
    if let Some(address) = host.dbus_session_bus_address {
        reveal_strlit("DBUS_SESSION_BUS_ADDRESS");
        lemma_is_no_bind("DBUS_SESSION_BUS_ADDRESS"@);
        lemma_setenv_mounts_nothing("DBUS_SESSION_BUS_ADDRESS"@, address@);
        let address_option = setenv("DBUS_SESSION_BUS_ADDRESS"@, address@);
        match dbus_socket_path(address@) {
            Some(path) => {
                lemma_ro_bind_is_not_writable(path);
                lemma_nothing_writable(
                    only_if(
                        !in_bound_runtime_dir(path, host, found) && found.dbus_socket,
                        ro_bind(path),
                    ),
                    address_option,
                );
            },
            None => {
                lemma_nothing_writable(seq![], address_option);
            },
        }
    }
}

proof fn lemma_pulse_mounts_nothing(host: HostEnv, found: Found)
    ensures
        mounts_nothing_writable(pulse_options(host, found)),
{
    if let Some(dir) = host.xdg_runtime_dir {
        reveal_strlit("PULSE_SERVER");
        lemma_is_no_bind("PULSE_SERVER"@);
        reveal_strlit("unix:");
        let server = "unix:"@ + pulse_socket_path(dir@);
        assert(server[0] == 'u');
        lemma_is_no_bind(server);
        lemma_setenv_mounts_nothing("PULSE_SERVER"@, server);
    }
}

proof fn lemma_locale_mounts_nothing(host: HostEnv)
    requires
        has_no_bind(host),
    ensures
        mounts_nothing_writable(locale_options(host)),
{
    reveal_strlit("LANG");
    lemma_is_no_bind("LANG"@);
    reveal_strlit("LC_ALL");
    lemma_is_no_bind("LC_ALL"@);
    reveal_strlit("LC_CTYPE");
    lemma_is_no_bind("LC_CTYPE"@);
    reveal_strlit("LC_MESSAGES");
    lemma_is_no_bind("LC_MESSAGES"@);
    reveal_strlit("LC_NUMERIC");
    lemma_is_no_bind("LC_NUMERIC"@);
    let a = forward("LANG"@, host.lang);
    let b = forward("LC_ALL"@, host.lc_all);
    let c = forward("LC_CTYPE"@, host.lc_ctype);
    let d = forward("LC_MESSAGES"@, host.lc_messages);
    let e = forward("LC_NUMERIC"@, host.lc_numeric);
    lemma_forward_mounts_nothing("LANG"@, host.lang);
    lemma_forward_mounts_nothing("LC_ALL"@, host.lc_all);
    lemma_forward_mounts_nothing("LC_CTYPE"@, host.lc_ctype);
    lemma_forward_mounts_nothing("LC_MESSAGES"@, host.lc_messages);
    lemma_forward_mounts_nothing("LC_NUMERIC"@, host.lc_numeric);
    lemma_nothing_writable(a, b);
    lemma_nothing_writable(a + b, c);
    lemma_nothing_writable(a + b + c, d);
    lemma_nothing_writable(a + b + c + d, e);
}

/// What follows the home directory among the options of a graphical program.
pub open spec fn desktop_options(host: HostEnv, found: Found) -> Seq<Seq<char>> {
    forward("WAYLAND_DISPLAY"@, host.wayland_display) + x11_options(host, found) + only_if(
        found.dri,
        ro_bind("/dev/dri"@),
    ) + dbus_options(host, found) + pulse_options(host, found) + only_if(
        found.fonts,
        ro_bind("/etc/fonts"@),
    ) + locale_options(host)
}

proof fn lemma_desktop_mounts_nothing(host: HostEnv, found: Found)
    requires
        has_no_bind(host),
    ensures
        mounts_nothing_writable(desktop_options(host, found)),
{
    reveal_strlit("WAYLAND_DISPLAY");
    lemma_is_no_bind("WAYLAND_DISPLAY"@);
    reveal_strlit("/dev/dri");
    lemma_is_no_bind("/dev/dri"@);
    reveal_strlit("/etc/fonts");
    lemma_is_no_bind("/etc/fonts"@);
    let a = forward("WAYLAND_DISPLAY"@, host.wayland_display);
    let b = x11_options(host, found);
    let c = only_if(found.dri, ro_bind("/dev/dri"@));
    let d = dbus_options(host, found);
    let e = pulse_options(host, found);
    let f = only_if(found.fonts, ro_bind("/etc/fonts"@));
    let g = locale_options(host);
    lemma_forward_mounts_nothing("WAYLAND_DISPLAY"@, host.wayland_display);
    lemma_x11_mounts_nothing(host, found);
    lemma_ro_bind_is_not_writable("/dev/dri"@);
    lemma_dbus_mounts_nothing(host, found);
    lemma_pulse_mounts_nothing(host, found);
    lemma_ro_bind_is_not_writable("/etc/fonts"@);
    lemma_locale_mounts_nothing(host);
    lemma_nothing_writable(a, b);
    lemma_nothing_writable(a + b, c);
    lemma_nothing_writable(a + b + c, d);
    lemma_nothing_writable(a + b + c + d, e);
    lemma_nothing_writable(a + b + c + d + e, f);
    lemma_nothing_writable(a + b + c + d + e + f, g);
}

proof fn lemma_home_then_desktop(host: HostEnv, found: Found)
    ensures
        gui_options(host, found) == runtime_options(host, found) + home_options(host, found)
            + desktop_options(host, found),
{
    let start = runtime_options(host, found) + home_options(host, found);
    let a = forward("WAYLAND_DISPLAY"@, host.wayland_display);
    let b = x11_options(host, found);
    let c = only_if(found.dri, ro_bind("/dev/dri"@));
    let d = dbus_options(host, found);
    let e = pulse_options(host, found);
    let f = only_if(found.fonts, ro_bind("/etc/fonts"@));
    let g = locale_options(host);
    lemma_appended(start, a, b);
    lemma_appended(start, a + b, c);
    lemma_appended(start, a + b + c, d);
    lemma_appended(start, a + b + c + d, e);
    lemma_appended(start, a + b + c + d + e, f);
    lemma_appended(start, a + b + c + d + e + f, g);
}

/// Only the working directory, and the home directory of a graphical program, are
/// mounted writable: the option for a writable mount is followed by one of the two.
/// Values that read as the option itself are left out.
pub proof fn law_only_own_directories_are_writable(
    farm: Seq<char>,
    cwd: Option<Seq<char>>,
    host: HostEnv,
    found: Found,
    gui: bool,
    i: int,
)
    requires
        farm != "--bind"@,
        cwd != Some("--bind"@),
        has_no_bind(host),
        0 <= i < sandbox_options(farm, cwd, host, found, gui).len(),
        sandbox_options(farm, cwd, host, found, gui)[i] == "--bind"@,
    ensures
        ({
            let options = sandbox_options(farm, cwd, host, found, gui);
            &&& i + 2 < options.len()
            &&& options[i + 1] == options[i + 2]
            &&& {
                ||| cwd == Some(options[i + 1])
                ||| gui && found.home && opt_text(host.home) == Some(options[i + 1])
            }
        }),
{
    let front = isolation() + mounts() + overlay(farm);
    let work = working_dir(cwd);
    let env = environment(host.home);
    let runtime = runtime_options(host, found);
    let home = home_options(host, found);
    let rest = desktop_options(host, found);
    lemma_base_mounts_nothing(farm, host.home);
    lemma_runtime_mounts_nothing(host, found);
    lemma_desktop_mounts_nothing(host, found);
    lemma_home_then_desktop(host, found);
    let options = sandbox_options(farm, cwd, host, found, gui);
    let a = front.len() as int;
    let b = a + work.len();
    let c = b + env.len();
    let d = c + runtime.len();
    let e = d + home.len();
    let tail = only_if(gui, runtime + home + rest);
    assert(options == front + work + env + tail);
    if i < a {
        assert(options[i] == front[i]);
    } else if i < b {
        assert(options[i] == work[i - a]);
        assert(options[a + 1] == work[1] && options[a + 2] == work[2]);
    } else if i < c {
        assert(options[i] == env[i - b]);
    } else if i < d {
        assert(options[i] == tail[i - c]);
        assert(options[i] == runtime[i - c]);
    } else if i < e {
        assert(options[i] == tail[i - c]);
        assert(options[i] == home[i - d]);
        assert(options[d + 1] == home[1] && options[d + 2] == home[2]);
    } else {
        assert(options[i] == tail[i - c]);
        assert(options[i] == rest[i - e]);
    }
}

proof fn lemma_occurs_first(part: Seq<Seq<char>>, a: Seq<Seq<char>>, b: Seq<Seq<char>>)
    requires
        occurs_in(part, a),
    ensures
        occurs_in(part, a + b),
{
    reveal(occurs_in);
    let i = choose|i: int|
        0 <= i <= a.len() - part.len() && #[trigger] a.subrange(i, i + part.len()) == part;
    assert((a + b).subrange(i, i + part.len()) =~= a.subrange(i, i + part.len()));
}

proof fn lemma_occurs_second(part: Seq<Seq<char>>, a: Seq<Seq<char>>, b: Seq<Seq<char>>)
    requires
        occurs_in(part, b),
    ensures
        occurs_in(part, a + b),
{
    reveal(occurs_in);
    let i = choose|i: int|
        0 <= i <= b.len() - part.len() && #[trigger] b.subrange(i, i + part.len()) == part;
    let k = a.len() + i;
    assert((a + b).subrange(k, k + part.len()) =~= b.subrange(i, i + part.len()));
}

proof fn lemma_occurs_itself(part: Seq<Seq<char>>)
    ensures
        occurs_in(part, part),
{
    reveal(occurs_in);
    assert(part.subrange(0, 0int + part.len()) =~= part);
}

/// What occurs in one of the groups of options of a graphical program occurs in all.
proof fn lemma_occurs_among_all(
    part: Seq<Seq<char>>,
    farm: Seq<char>,
    cwd: Option<Seq<char>>,
    host: HostEnv,
    found: Found,
)
    requires
        occurs_in(part, runtime_options(host, found)) || occurs_in(part, home_options(host, found))
            || occurs_in(part, forward("WAYLAND_DISPLAY"@, host.wayland_display)) || occurs_in(
            part,
            x11_options(host, found),
        ) || occurs_in(part, only_if(found.dri, ro_bind("/dev/dri"@))) || occurs_in(
            part,
            dbus_options(host, found),
        ) || occurs_in(part, pulse_options(host, found)) || occurs_in(
            part,
            only_if(found.fonts, ro_bind("/etc/fonts"@)),
        ) || occurs_in(part, locale_options(host)),
    ensures
        occurs_in(part, sandbox_options(farm, cwd, host, found, true)),
{
    let base = isolation() + mounts() + overlay(farm) + working_dir(cwd) + environment(host.home);
    let a = runtime_options(host, found);
    let b = home_options(host, found);
    let c = forward("WAYLAND_DISPLAY"@, host.wayland_display);
    let d = x11_options(host, found);
    let e = only_if(found.dri, ro_bind("/dev/dri"@));
    let f = dbus_options(host, found);
    let g = pulse_options(host, found);
    let h = only_if(found.fonts, ro_bind("/etc/fonts"@));
    let i = locale_options(host);
    if occurs_in(part, a) {
        lemma_occurs_first(part, a, b);
    }
    if occurs_in(part, b) {
        lemma_occurs_second(part, a, b);
    }
    if occurs_in(part, a + b) {
        lemma_occurs_first(part, a + b, c);
    }
    if occurs_in(part, c) {
        lemma_occurs_second(part, a + b, c);
    }
    if occurs_in(part, a + b + c) {
        lemma_occurs_first(part, a + b + c, d);
    }
    if occurs_in(part, d) {
        lemma_occurs_second(part, a + b + c, d);
    }
    if occurs_in(part, a + b + c + d) {
        lemma_occurs_first(part, a + b + c + d, e);
    }
    if occurs_in(part, e) {
        lemma_occurs_second(part, a + b + c + d, e);
    }
    if occurs_in(part, a + b + c + d + e) {
        lemma_occurs_first(part, a + b + c + d + e, f);
    }
    if occurs_in(part, f) {
        lemma_occurs_second(part, a + b + c + d + e, f);
    }
    if occurs_in(part, a + b + c + d + e + f) {
        lemma_occurs_first(part, a + b + c + d + e + f, g);
    }
    if occurs_in(part, g) {
        lemma_occurs_second(part, a + b + c + d + e + f, g);
    }
    if occurs_in(part, a + b + c + d + e + f + g) {
        lemma_occurs_first(part, a + b + c + d + e + f + g, h);
    }
    if occurs_in(part, h) {
        lemma_occurs_second(part, a + b + c + d + e + f + g, h);
    }
    if occurs_in(part, a + b + c + d + e + f + g + h) {
        lemma_occurs_first(part, a + b + c + d + e + f + g + h, i);
    }
    if occurs_in(part, i) {
        lemma_occurs_second(part, a + b + c + d + e + f + g + h, i);
    }
    lemma_occurs_second(part, base, gui_options(host, found));
}

/// Every program is isolated but for the network, has the host's files read-only with
/// fresh devices, processes and temporary files laid over them, and the merged packages
/// read-only at `/tmp/arch-run`; then comes the working directory, writable.
pub proof fn law_sandbox_starts_the_same(
    farm: Seq<char>,
    dir: Seq<char>,
    cwd: Option<Seq<char>>,
    host: HostEnv,
    found: Found,
    gui: bool,
)
    ensures
        sandbox_options(farm, cwd, host, found, gui).take(19) == seq![
            "--unshare-all"@,
            "--share-net"@,
            "--die-with-parent"@,
            "--ro-bind"@,
            "/"@,
            "/"@,
            "--dev"@,
            "/dev"@,
            "--proc"@,
            "/proc"@,
            "--tmpfs"@,
            "/tmp"@,
            "--tmpfs"@,
            "/dev/shm"@,
            "--dir"@,
            "/tmp/arch-run"@,
            "--ro-bind"@,
            farm,
            "/tmp/arch-run"@,
        ],
        sandbox_options(farm, Some(dir), host, found, gui).subrange(19, 22) == seq![
            "--bind"@,
            dir,
            dir,
        ],
{
    let front = isolation() + mounts() + overlay(farm);
    assert(front.len() == 19);
    assert(sandbox_options(farm, cwd, host, found, gui).take(19) =~= front);
    let options = sandbox_options(farm, Some(dir), host, found, gui);
    assert(options.subrange(19, 22) =~= seq!["--bind"@, dir, dir]);
}

/// Every program finds the packages' programs and libraries before the host's, and its
/// home where there is one.
pub proof fn law_search_paths_are_set(
    farm: Seq<char>,
    cwd: Option<Seq<char>>,
    host: HostEnv,
    found: Found,
    gui: bool,
)
    ensures
        ({
            let options = sandbox_options(farm, cwd, host, found, gui);
            &&& occurs_in(
                seq![
                    "--setenv"@,
                    "PATH"@,
                    "/tmp/arch-run/usr/bin:/usr/local/bin:/usr/bin:/bin"@,
                ],
                options,
            )
            &&& occurs_in(
                seq![
                    "--setenv"@,
                    "LD_LIBRARY_PATH"@,
                    "/tmp/arch-run/usr/lib:/tmp/arch-run/usr/lib64:/tmp/arch-run/lib:/tmp/arch-run/lib64:/usr/lib:/usr/lib64:/lib:/lib64"@,
                ],
                options,
            )
            &&& host.home matches Some(home) ==> occurs_in(
                seq!["--setenv"@, "HOME"@, home@],
                options,
            )
        }),
{
    let base = isolation() + mounts() + overlay(farm) + working_dir(cwd);
    let a = seq!["--setenv"@, "PATH"@, program_path()];
    let b = seq!["--setenv"@, "LD_LIBRARY_PATH"@, library_path()];
    let c = forward("HOME"@, host.home);
    lemma_occurs_itself(a);
    lemma_occurs_itself(b);
    lemma_occurs_itself(c);
    lemma_occurs_first(a, a, b);
    lemma_occurs_second(b, a, b);
    lemma_occurs_first(a, a + b, c);
    lemma_occurs_first(b, a + b, c);
    lemma_occurs_second(c, a + b, c);
    let env = environment(host.home);
    lemma_occurs_second(a, base, env);
    lemma_occurs_second(b, base, env);
    lemma_occurs_second(c, base, env);
    let rest = only_if(gui, gui_options(host, found));
    lemma_occurs_first(a, base + env, rest);
    lemma_occurs_first(b, base + env, rest);
    lemma_occurs_first(c, base + env, rest);
}

/// A graphical program has the runtime directory, read-only, and learns of it, wherever
/// it exists.
pub proof fn law_runtime_directory_is_forwarded(
    farm: Seq<char>,
    cwd: Option<Seq<char>>,
    host: HostEnv,
    found: Found,
)
    requires
        host.xdg_runtime_dir is Some,
        found.runtime_dir,
    ensures
        ({
            let dir = host.xdg_runtime_dir->0@;
            occurs_in(
                seq!["--ro-bind"@, dir, dir, "--setenv"@, "XDG_RUNTIME_DIR"@, dir],
                sandbox_options(farm, cwd, host, found, true),
            )
        }),
{
    let dir = host.xdg_runtime_dir->0@;
    let part = seq!["--ro-bind"@, dir, dir, "--setenv"@, "XDG_RUNTIME_DIR"@, dir];
    assert(runtime_options(host, found) =~= part);
    lemma_occurs_itself(part);
    lemma_occurs_among_all(part, farm, cwd, host, found);
}

/// A graphical program has the home directory, writable, wherever it exists.
pub proof fn law_home_is_forwarded(
    farm: Seq<char>,
    cwd: Option<Seq<char>>,
    host: HostEnv,
    found: Found,
)
    requires
        host.home is Some,
        found.home,
    ensures
        occurs_in(
            seq!["--bind"@, host.home->0@, host.home->0@],
            sandbox_options(farm, cwd, host, found, true),
        ),
{
    let part = seq!["--bind"@, host.home->0@, host.home->0@];
    lemma_occurs_itself(part);
    lemma_occurs_among_all(part, farm, cwd, host, found);
}

/// A graphical program learns of the Wayland display, wherever there is one.
pub proof fn law_wayland_is_forwarded(
    farm: Seq<char>,
    cwd: Option<Seq<char>>,
    host: HostEnv,
    found: Found,
)
    requires
        host.wayland_display is Some,
    ensures
        occurs_in(
            seq!["--setenv"@, "WAYLAND_DISPLAY"@, host.wayland_display->0@],
            sandbox_options(farm, cwd, host, found, true),
        ),
{
    let part = seq!["--setenv"@, "WAYLAND_DISPLAY"@, host.wayland_display->0@];
    lemma_occurs_itself(part);
    lemma_occurs_among_all(part, farm, cwd, host, found);
}

/// The socket of a display is that of its number: what stands between the colons in
/// front and the first dot.
pub proof fn law_display_number_names_the_socket(
    colons: Seq<char>,
    number: Seq<char>,
    screen: Seq<char>,
)
    requires
        forall|i: int| 0 <= i < colons.len() ==> #[trigger] colons[i] == ':',
        number.len() > 0 ==> number[0] != ':',
        forall|i: int| 0 <= i < number.len() ==> #[trigger] number[i] != '.',
    ensures
        x_socket_path(colons + number) == "/tmp/.X11-unix/X"@ + number,
        x_socket_path(colons + (number.push('.') + screen)) == "/tmp/.X11-unix/X"@ + number,
{
    law_leading_characters_are_left_out(colons, number, ':');
    law_leading_characters_are_left_out(colons, number.push('.') + screen, ':');
    law_head_stands_before_the_first(number, '.', screen);
}

/// A graphical program has the X server's socket, and learns of the display, wherever
/// there is a display whose socket exists, whatever else the host has.
pub proof fn law_x_display_is_forwarded(
    farm: Seq<char>,
    cwd: Option<Seq<char>>,
    host: HostEnv,
    found: Found,
)
    requires
        host.display is Some,
        found.x_socket,
    ensures
        ({
            let display = host.display->0@;
            let socket = x_socket_path(display);
            occurs_in(
                seq![
                    "--dir"@,
                    "/tmp/.X11-unix"@,
                    "--ro-bind"@,
                    socket,
                    socket,
                    "--setenv"@,
                    "DISPLAY"@,
                    display,
                ],
                sandbox_options(farm, cwd, host, found, true),
            )
        }),
{
    let display = host.display->0@;
    let socket = x_socket_path(display);
    let part = seq![
        "--dir"@,
        "/tmp/.X11-unix"@,
        "--ro-bind"@,
        socket,
        socket,
        "--setenv"@,
        "DISPLAY"@,
        display,
    ];
    assert(x11_options(host, found) =~= part);
    lemma_occurs_itself(part);
    lemma_occurs_among_all(part, farm, cwd, host, found);
}

/// A graphical program has the graphics devices and the fonts of the host, read-only,
/// wherever they exist.
pub proof fn law_devices_and_fonts_are_forwarded(
    farm: Seq<char>,
    cwd: Option<Seq<char>>,
    host: HostEnv,
    found: Found,
)
    ensures
        found.dri ==> occurs_in(
            seq!["--ro-bind"@, "/dev/dri"@, "/dev/dri"@],
            sandbox_options(farm, cwd, host, found, true),
        ),
        found.fonts ==> occurs_in(
            seq!["--ro-bind"@, "/etc/fonts"@, "/etc/fonts"@],
            sandbox_options(farm, cwd, host, found, true),
        ),
{
    let a = seq!["--ro-bind"@, "/dev/dri"@, "/dev/dri"@];
    let b = seq!["--ro-bind"@, "/etc/fonts"@, "/etc/fonts"@];
    lemma_occurs_itself(a);
    lemma_occurs_itself(b);
    if found.dri {
        lemma_occurs_among_all(a, farm, cwd, host, found);
    }
    if found.fonts {
        lemma_occurs_among_all(b, farm, cwd, host, found);
    }
}

/// A graphical program has the session bus's socket, read-only, wherever that is a file
/// that exists, unless the runtime directory that it lies in is mounted already; and it
/// learns of the address right behind it.
pub proof fn law_bus_socket_is_forwarded(
    farm: Seq<char>,
    cwd: Option<Seq<char>>,
    host: HostEnv,
    found: Found,
    path: Seq<char>,
)
    requires
        host.dbus_session_bus_address is Some,
        host.dbus_session_bus_address->0@ == "unix:path="@ + path,
        found.dbus_socket,
        host.xdg_runtime_dir is None || !found.runtime_dir || !lies_under(
            encode_utf8(path),
            encode_utf8(host.xdg_runtime_dir->0@),
        ),
    ensures
        occurs_in(
            seq![
                "--ro-bind"@,
                path,
                path,
                "--setenv"@,
                "DBUS_SESSION_BUS_ADDRESS"@,
                "unix:path="@ + path,
            ],
            sandbox_options(farm, cwd, host, found, true),
        ),
{
    let address = host.dbus_session_bus_address->0@;
    law_prefix_and_rest(address, "unix:path="@, path);
    let part = seq![
        "--ro-bind"@,
        path,
        path,
        "--setenv"@,
        "DBUS_SESSION_BUS_ADDRESS"@,
        "unix:path="@ + path,
    ];
    assert(dbus_options(host, found) =~= part);
    lemma_occurs_itself(part);
    lemma_occurs_among_all(part, farm, cwd, host, found);
}

/// A graphical program learns of the PulseAudio server, wherever its socket exists in the
/// runtime directory.
pub proof fn law_sound_is_forwarded(
    farm: Seq<char>,
    cwd: Option<Seq<char>>,
    host: HostEnv,
    found: Found,
    dir: Seq<char>,
)
    requires
        host.xdg_runtime_dir is Some,
        found.pulse_socket,
    ensures
        occurs_in(
            seq![
                "--setenv"@,
                "PULSE_SERVER"@,
                "unix:"@ + pulse_socket_path(host.xdg_runtime_dir->0@),
            ],
            sandbox_options(farm, cwd, host, found, true),
        ),
        pulse_socket_path(dir.push('/')) == dir.push('/') + "pulse/native"@,
        dir.len() > 0 && dir[dir.len() - 1] != '/' ==> pulse_socket_path(dir) == dir.push('/')
            + "pulse/native"@,
        pulse_socket_path(Seq::empty()) == "pulse/native"@,
{
    reveal_strlit("pulse/native");
    law_joining_texts_sets_one_separator(dir, "pulse/native"@);
    let part = seq![
        "--setenv"@,
        "PULSE_SERVER"@,
        "unix:"@ + pulse_socket_path(host.xdg_runtime_dir->0@),
    ];
    lemma_occurs_itself(part);
    lemma_occurs_among_all(part, farm, cwd, host, found);
}

/// A graphical program has each locale variable that the host has.
pub proof fn law_locale_is_forwarded(
    farm: Seq<char>,
    cwd: Option<Seq<char>>,
    host: HostEnv,
    found: Found,
)
    ensures
        ({
            let options = sandbox_options(farm, cwd, host, found, true);
            &&& host.lang matches Some(v) ==> occurs_in(seq!["--setenv"@, "LANG"@, v@], options)
            &&& host.lc_all matches Some(v) ==> occurs_in(seq!["--setenv"@, "LC_ALL"@, v@], options)
            &&& host.lc_ctype matches Some(v) ==> occurs_in(
                seq!["--setenv"@, "LC_CTYPE"@, v@],
                options,
            )
            &&& host.lc_messages matches Some(v) ==> occurs_in(
                seq!["--setenv"@, "LC_MESSAGES"@, v@],
                options,
            )
            &&& host.lc_numeric matches Some(v) ==> occurs_in(
                seq!["--setenv"@, "LC_NUMERIC"@, v@],
                options,
            )
        }),
{
    let a = forward("LANG"@, host.lang);
    let b = forward("LC_ALL"@, host.lc_all);
    let c = forward("LC_CTYPE"@, host.lc_ctype);
    let d = forward("LC_MESSAGES"@, host.lc_messages);
    let e = forward("LC_NUMERIC"@, host.lc_numeric);
    lemma_occurs_itself(a);
    lemma_occurs_itself(b);
    lemma_occurs_itself(c);
    lemma_occurs_itself(d);
    lemma_occurs_itself(e);
    lemma_occurs_first(a, a, b);
    lemma_occurs_first(a, a + b, c);
    lemma_occurs_first(a, a + b + c, d);
    lemma_occurs_first(a, a + b + c + d, e);
    lemma_occurs_second(b, a, b);
    lemma_occurs_first(b, a + b, c);
    lemma_occurs_first(b, a + b + c, d);
    lemma_occurs_first(b, a + b + c + d, e);
    lemma_occurs_second(c, a + b, c);
    lemma_occurs_first(c, a + b + c, d);
    lemma_occurs_first(c, a + b + c + d, e);
    lemma_occurs_second(d, a + b + c, d);
    lemma_occurs_first(d, a + b + c + d, e);
    lemma_occurs_second(e, a + b + c + d, e);
    lemma_occurs_among_all(a, farm, cwd, host, found);
    lemma_occurs_among_all(b, farm, cwd, host, found);
    lemma_occurs_among_all(c, farm, cwd, host, found);
    lemma_occurs_among_all(d, farm, cwd, host, found);
    lemma_occurs_among_all(e, farm, cwd, host, found);
}

/// The number of options, where the condition holds.
pub open spec fn count_if(condition: bool, n: int) -> int {
    if condition {
        n
    } else {
        0
    }
}

/// Whether the session bus's socket is to be mounted: it is a file that exists, and is not
/// in the runtime directory that is mounted already.
pub open spec fn needs_bus_socket(host: HostEnv, found: Found) -> bool {
    host.dbus_session_bus_address is Some && found.dbus_socket && (exists|path: Seq<char>|
        host.dbus_session_bus_address->0@ == #[trigger] ("unix:path="@ + path) && !(
        host.xdg_runtime_dir is Some && found.runtime_dir && lies_under(
            encode_utf8(path),
            encode_utf8(host.xdg_runtime_dir->0@),
        )))
}

proof fn lemma_bus_count(host: HostEnv, found: Found)
    ensures
        dbus_options(host, found).len() == count_if(host.dbus_session_bus_address is Some, 3)
            + count_if(needs_bus_socket(host, found), 3),
{
    if let Some(address) = host.dbus_session_bus_address {
        match dbus_socket_path(address@) {
            Some(path) => {
                law_prefix_and_rest(address@, "unix:path="@, path);
                assert(address@ == "unix:path="@ + path);
                assert forall|other: Seq<char>| address@ == #[trigger] ("unix:path="@
                    + other) implies other == path by {
                    law_prefix_and_rest(address@, "unix:path="@, other);
                }
            },
            None => {
                law_prefix_and_rest(address@, "unix:path="@, seq![]);
            },
        }
    }
}

/// How many options a graphical program gets beyond the rest.
pub open spec fn gui_count(host: HostEnv, found: Found) -> int {
    count_if(host.xdg_runtime_dir is Some && found.runtime_dir, 6) + count_if(
        host.home is Some && found.home,
        3,
    ) + count_if(host.wayland_display is Some, 3) + count_if(
        host.display is Some && found.x_socket,
        8,
    ) + count_if(found.dri, 3) + count_if(host.dbus_session_bus_address is Some, 3) + count_if(
        needs_bus_socket(host, found),
        3,
    ) + count_if(host.xdg_runtime_dir is Some && found.pulse_socket, 3) + count_if(found.fonts, 3)
        + count_if(host.lang is Some, 3) + count_if(host.lc_all is Some, 3) + count_if(
        host.lc_ctype is Some,
        3,
    ) + count_if(host.lc_messages is Some, 3) + count_if(host.lc_numeric is Some, 3)
}

proof fn lemma_forward_count(name: Seq<char>, value: Option<String>)
    ensures
        forward(name, value).len() == count_if(value is Some, 3),
{
}

proof fn lemma_locale_count(host: HostEnv)
    ensures
        locale_options(host).len() == count_if(host.lang is Some, 3) + count_if(
            host.lc_all is Some,
            3,
        ) + count_if(host.lc_ctype is Some, 3) + count_if(host.lc_messages is Some, 3) + count_if(
            host.lc_numeric is Some,
            3,
        ),
{
    lemma_forward_count("LANG"@, host.lang);
    lemma_forward_count("LC_ALL"@, host.lc_all);
    lemma_forward_count("LC_CTYPE"@, host.lc_ctype);
    lemma_forward_count("LC_MESSAGES"@, host.lc_messages);
    lemma_forward_count("LC_NUMERIC"@, host.lc_numeric);
}

proof fn lemma_desktop_count(host: HostEnv, found: Found)
    ensures
        runtime_options(host, found).len() == count_if(
            host.xdg_runtime_dir is Some && found.runtime_dir,
            6,
        ),
        home_options(host, found).len() == count_if(host.home is Some && found.home, 3),
        x11_options(host, found).len() == count_if(host.display is Some && found.x_socket, 8),
        pulse_options(host, found).len() == count_if(
            host.xdg_runtime_dir is Some && found.pulse_socket,
            3,
        ),
{
}

proof fn lemma_gui_sum(host: HostEnv, found: Found)
    ensures
        gui_options(host, found).len() == runtime_options(host, found).len() + home_options(
            host,
            found,
        ).len() + forward("WAYLAND_DISPLAY"@, host.wayland_display).len() + x11_options(
            host,
            found,
        ).len() + only_if(found.dri, ro_bind("/dev/dri"@)).len() + dbus_options(host, found).len()
            + pulse_options(host, found).len() + only_if(found.fonts, ro_bind("/etc/fonts"@)).len()
            + locale_options(host).len(),
{
    let a = runtime_options(host, found);
    let b = home_options(host, found);
    let c = forward("WAYLAND_DISPLAY"@, host.wayland_display);
    let d = x11_options(host, found);
    let e = only_if(found.dri, ro_bind("/dev/dri"@));
    let f = dbus_options(host, found);
    let g = pulse_options(host, found);
    let h = only_if(found.fonts, ro_bind("/etc/fonts"@));
    let i = locale_options(host);
    lemma_nine(a, b, c, d, e, f, g, h, i);
}

proof fn lemma_nine(
    a: Seq<Seq<char>>,
    b: Seq<Seq<char>>,
    c: Seq<Seq<char>>,
    d: Seq<Seq<char>>,
    e: Seq<Seq<char>>,
    f: Seq<Seq<char>>,
    g: Seq<Seq<char>>,
    h: Seq<Seq<char>>,
    i: Seq<Seq<char>>,
)
    ensures
        (a + b + c + d + e + f + g + h + i).len() == a.len() + b.len() + c.len() + d.len() + e.len()
            + f.len() + g.len() + h.len() + i.len(),
{
}

proof fn lemma_base_count(farm: Seq<char>, cwd: Option<Seq<char>>, home: Option<String>)
    ensures
        (isolation() + mounts() + overlay(farm) + working_dir(cwd) + environment(home)).len() == 25
            + count_if(cwd is Some, 3) + count_if(home is Some, 3),
{
    assert(isolation().len() == 3 && mounts().len() == 11 && overlay(farm).len() == 5);
    assert(working_dir(cwd).len() == count_if(cwd is Some, 3));
    lemma_forward_count("HOME"@, home);
    assert(environment(home).len() == 6 + count_if(home is Some, 3));
}

/// Nothing is passed on but what is said of each thing that is: the number of options is
/// the sum of theirs.
pub proof fn law_nothing_else_is_passed_on(
    farm: Seq<char>,
    cwd: Option<Seq<char>>,
    host: HostEnv,
    found: Found,
    gui: bool,
)
    ensures
        sandbox_options(farm, cwd, host, found, gui).len() == 25 + count_if(cwd is Some, 3)
            + count_if(host.home is Some, 3) + count_if(gui, gui_count(host, found)),
{
    lemma_base_count(farm, cwd, host.home);
    lemma_gui_sum(host, found);
    assert(gui_options(host, found).len() == gui_count(host, found)) by {
        lemma_bus_count(host, found);
        lemma_desktop_count(host, found);
        lemma_locale_count(host);
        lemma_forward_count("WAYLAND_DISPLAY"@, host.wayland_display);
    }
    let base = isolation() + mounts() + overlay(farm) + working_dir(cwd) + environment(host.home);
    let more = only_if(gui, gui_options(host, found));
    assert((base + more).len() == base.len() + more.len());
}

/// The command line is the options, the program and then each of its arguments.
pub proof fn law_command_line(
    entry_point: Seq<char>,
    args: Seq<Seq<char>>,
    farm: Seq<char>,
    cwd: Option<Seq<char>>,
    host: HostEnv,
    found: Found,
    gui: bool,
)
    ensures
        sandbox_command(entry_point, args, farm, cwd, host, found, gui) == sandbox_options(
            farm,
            cwd,
            host,
            found,
            gui,
        ) + seq![entry_point] + args,
{
    assert(sandbox_command(entry_point, args, farm, cwd, host, found, gui) =~= sandbox_options(
        farm,
        cwd,
        host,
        found,
        gui,
    ) + seq![entry_point] + args);
}

/// What a graphical program gets comes behind what every program gets, so that its mounts
/// lie over the others: the runtime directory first, the home directory over it, and then
/// the rest.
pub proof fn law_order_of_a_graphical_program(
    farm: Seq<char>,
    cwd: Option<Seq<char>>,
    host: HostEnv,
    found: Found,
)
    ensures
        ({
            let runtime = if host.xdg_runtime_dir is Some && found.runtime_dir {
                seq![
                    "--ro-bind"@,
                    host.xdg_runtime_dir->0@,
                    host.xdg_runtime_dir->0@,
                    "--setenv"@,
                    "XDG_RUNTIME_DIR"@,
                    host.xdg_runtime_dir->0@,
                ]
            } else {
                seq![]
            };
            let home = if host.home is Some && found.home {
                seq!["--bind"@, host.home->0@, host.home->0@]
            } else {
                seq![]
            };
            (sandbox_options(farm, cwd, host, found, false) + runtime + home).is_prefix_of(
                sandbox_options(farm, cwd, host, found, true),
            )
        }),
{
    let runtime = runtime_options(host, found);
    let home = home_options(host, found);
    let rest = desktop_options(host, found);
    lemma_home_then_desktop(host, found);
    let plain = sandbox_options(farm, cwd, host, found, false);
    let base = isolation() + mounts() + overlay(farm) + working_dir(cwd) + environment(host.home);
    assert(plain =~= base);
    if let Some(dir) = host.xdg_runtime_dir {
        if found.runtime_dir {
            assert(runtime =~= seq![
                "--ro-bind"@,
                dir@,
                dir@,
                "--setenv"@,
                "XDG_RUNTIME_DIR"@,
                dir@,
            ]);
        }
    }
    let a = if host.xdg_runtime_dir is Some && found.runtime_dir {
        seq![
            "--ro-bind"@,
            host.xdg_runtime_dir->0@,
            host.xdg_runtime_dir->0@,
            "--setenv"@,
            "XDG_RUNTIME_DIR"@,
            host.xdg_runtime_dir->0@,
        ]
    } else {
        seq![]
    };
    let b = if host.home is Some && found.home {
        seq!["--bind"@, host.home->0@, host.home->0@]
    } else {
        seq![]
    };
    assert(a == runtime);
    assert(b == home);
    let whole = sandbox_options(farm, cwd, host, found, true);
    let front = plain + a + b;
    assert(whole == plain + (a + b + rest));
    assert(front =~= whole.subrange(0, front.len() as int));
}

/// A path that is passed on reads as its bytes do, where there is one.
pub proof fn law_optional_path_reads_as_its_bytes(path: Vec<u8>)
    ensures
        opt_lossy(Some(path)) == Some(lossy(path@)),
        opt_lossy(None) is None,
{
}

} // verus!
