use std::collections::hash_map::DefaultHasher;
use std::hash::{Hash, Hasher};
use bws::cmd::{get_arg, get_flag, Cli, CmdMatches};
use bws::dependencies::{check_dependencies, DependencyError, DependencyProblem};
use bws::events::{add_event_callback, fire_outcome, start_once, callbacks_to_fire, get_event_id, remove_event_callback, CallbackError, Events};
use bws::graceful_shutdown::{guard, guards_done, shutdown, shutdown_timer, time_out, wait_for_shutdown, GracefulShutdownGuard, ShutdownSystem};
use bws::plugin::{get_plugin_id, get_vtable, set_plugin_id, set_vtable, split_version, LogLevel, PluginApi, PluginApiPtr, PluginGlobals};
use bws::safe_types::{SMutSlice, SSlice, SStr, SString};
use bws::server::ServerBaseStore as BaseStore;
use bws::serverbase::ServerBaseStore;
use bws::shutdown::{self as signal, shutdown_started, ShutdownSignal};

fn s(x: &str) -> String {
    String::from(x)
}

#[test]
fn command_line() {
    let m = CmdMatches {
        args: vec![(s("motd"), Some(s("hello"))), (s("port_file"), None)],
        flags: vec![(s("verbose"), true), (s("quiet"), false)],
    };
    assert_eq!(get_arg(&m, "motd"), Some("hello"));
    assert_eq!(get_arg(&m, "port_file"), None);
    assert!(get_flag(&m, "verbose"));
    assert!(!get_flag(&m, "quiet"));
    let cli = Cli::default();
    assert!(!cli.save_logs);
    assert_eq!(cli.shutdown_timeout, 5000);
    assert_eq!(cli.net_workers, 4);
    assert_eq!(cli.port, 25565);
}

#[test]
fn graceful_shutdown() {
    let mut store = ServerBaseStore::new();
    assert_eq!(store.shutdown.guards, 0);
    let g1 = guard(&mut store.shutdown);
    let g2 = GracefulShutdownGuard::new(&mut store.shutdown);
    assert_eq!(store.shutdown.guards, 2);
    assert!(!wait_for_shutdown(&store.shutdown));
    shutdown(&mut store.shutdown);
    shutdown(&mut store.shutdown);
    assert!(wait_for_shutdown(&store.shutdown));
    assert!(!guards_done(&store.shutdown));
    assert!(!g1.release(&mut store.shutdown));
    assert!(g2.release(&mut store.shutdown));
    assert!(guards_done(&store.shutdown));

    let mut sys = ShutdownSystem::new();
    let _g = sys.guard();
    assert!(!guards_done(&sys));
    time_out(&mut sys);
    assert!(guards_done(&sys));
    assert_eq!(shutdown_timer(5000), Some(5000));
    assert_eq!(shutdown_timer(0), Some(0));
    assert_eq!(shutdown_timer(-1), None);
    let _ = BaseStore::new();
}

#[test]
fn shutdown_signal() {
    let mut sig = ShutdownSignal::new();
    assert!(!shutdown_started(&sig));
    signal::shutdown(&mut sig);
    signal::shutdown(&mut sig);
    // asking leaves the one request in the channel for the waiting thread
    assert!(shutdown_started(&sig));
    assert!(shutdown_started(&sig));
    assert!(signal::wait_for_shutdown(&mut sig));
    assert!(!signal::wait_for_shutdown(&mut sig));
}

struct Api;

impl PluginApi for Api {
    fn pkg_name() -> &'static str {
        "my_api"
    }
    fn pkg_version() -> &'static str {
        "1.4.2"
    }
}

static API: Api = Api;

#[test]
fn plugin_interface() {
    let mut g: PluginGlobals<u32> = PluginGlobals::new();
    set_plugin_id(&mut g, 3);
    set_vtable(&mut g, 42);
    assert_eq!(get_plugin_id(&g), 3);
    assert_eq!(get_vtable(&g), 42);
    assert_ne!(LogLevel::Error, LogLevel::Trace);

    assert_eq!(split_version("1.2.3"), Some((1, 2, 3)));
    assert_eq!(split_version("+1.2.3"), Some((1, 2, 3)));
    assert_eq!(split_version("1.2"), None);
    assert_eq!(split_version("1.2.3.4"), None);
    assert_eq!(split_version("1.x.3"), None);
    assert_eq!(split_version("1.2.3-beta"), None);

    let ptr = PluginApiPtr::new(&API);
    assert_eq!(ptr.pkg_name, "my_api");
    assert_eq!(ptr.pkg_version, "1.4.2");
    assert!(ptr.compatible_with("my_api", "1.4.0"));
    assert!(!ptr.compatible_with("my_api", "1.5.0"));
    assert!(!ptr.compatible_with("other", "1.4.2"));
    let zero = PluginApiPtr { pkg_name: "z", pkg_version: "0.3.1" };
    assert!(zero.compatible_with("z", "0.3.1"));
    assert!(!zero.compatible_with("z", "0.3.2"));
}

#[test]
fn safe_types() {
    let data = [1u8, 2, 3];
    let sl = SSlice::from_slice(&data);
    assert_eq!(sl.as_slice(), &[1, 2, 3]);
    assert_eq!(sl.len(), 3);
    assert_eq!(sl.into_slice(), &data);
    let mut m = [4u8, 5];
    let ms = SMutSlice::from_slice(&mut m);
    assert_eq!(ms.len(), 2);
    ms.into_slice()[0] = 9;
    assert_eq!(m, [9, 5]);
    let st = SStr::from_str("hey");
    assert_eq!(st.as_str(), "hey");
    assert_eq!(st.into_str(), "hey");
    let ss = SString::from_string(String::from("owned"));
    assert_eq!(ss.as_str(), "owned");
    assert_eq!(ss.into_string(), "owned");
}

/// The place of an `f64` priority in the order of `f64::total_cmp`.
fn priority(p: f64) -> i64 {
    let bits = p.to_bits() as i64;
    bits ^ ((((bits >> 63) as u64) >> 1) as i64)
}

#[test]
fn events() {
    let mut events = Events::new(7, priority(f64::NEG_INFINITY));
    assert_eq!(get_event_id(&mut events, "start"), 0);
    assert_eq!(get_event_id(&mut events, "chat"), 1);
    assert_eq!(get_event_id(&mut events, "chat"), 1);
    assert_eq!(events.names, vec![s("start"), s("chat")]);
    assert_eq!(callbacks_to_fire(&events, 1), Some(vec![]));
    assert_eq!(callbacks_to_fire(&events, 2), None);

    assert_eq!(add_event_callback(&mut events, 1, "", 30, priority(0.0)), Err(CallbackError::NoPluginName));
    assert_eq!(add_event_callback(&mut events, 2, "p", 30, priority(0.0)), Err(CallbackError::NoSuchEvent));
    assert_eq!(add_event_callback(&mut events, 1, "b", 10, priority(1.5)), Ok(()));
    assert_eq!(add_event_callback(&mut events, 1, "a", 20, priority(-2.0)), Ok(()));
    assert_eq!(add_event_callback(&mut events, 1, "c", 20, priority(0.0)), Err(CallbackError::Duplicate(0)));
    // equal priorities run by plugin name
    assert_eq!(add_event_callback(&mut events, 1, "a", 40, priority(1.5)), Ok(()));
    // and equal names in the order they were added
    assert_eq!(add_event_callback(&mut events, 1, "a", 50, priority(1.5)), Ok(()));
    assert_eq!(callbacks_to_fire(&events, 1), Some(vec![20, 40, 50, 10]));
    // the server's own callback runs before any a plugin adds to "start"
    assert_eq!(add_event_callback(&mut events, 0, "p", 60, priority(f64::MIN)), Ok(()));
    assert_eq!(callbacks_to_fire(&events, 0), Some(vec![7, 60]));

    assert_eq!(remove_event_callback(&mut events, 3, 40), Err(CallbackError::NoSuchEvent));
    assert_eq!(remove_event_callback(&mut events, 1, 99), Err(CallbackError::NotFound));
    assert_eq!(remove_event_callback(&mut events, 1, 40), Ok(()));
    assert_eq!(callbacks_to_fire(&events, 1), Some(vec![20, 50, 10]));
    // adding and then removing a callback leaves the event as it was
    assert_eq!(add_event_callback(&mut events, 1, "z", 70, priority(0.0)), Ok(()));
    assert_eq!(remove_event_callback(&mut events, 1, 70), Ok(()));
    assert_eq!(callbacks_to_fire(&events, 1), Some(vec![20, 50, 10]));
}

#[test]
fn dependencies() {
    let deps = vec![(s("api"), s("^1.0"))];
    assert_eq!(check_dependencies(&deps, &vec![(s("api"), s("1.2.0"))]), Ok(vec![]));
    assert_eq!(
        check_dependencies(&deps, &vec![(s("api"), s("2.0.0"))]),
        Ok(vec![DependencyProblem::Incompatible(0, 0)])
    );
    assert_eq!(check_dependencies(&deps, &vec![(s("other"), s("1.0.0"))]), Ok(vec![DependencyProblem::Missing(0)]));
    assert_eq!(check_dependencies(&vec![(s("api"), s("not a requirement!"))], &vec![]), Err(DependencyError::BadRequirement(0)));
    assert_eq!(check_dependencies(&deps, &vec![(s("api"), s("one"))]), Err(DependencyError::BadVersion(0)));
    let two = vec![(s("a"), s("*")), (s("b"), s(">=2"))];
    let apis = vec![(s("b"), s("1.0.0")), (s("a"), s("0.1.0"))];
    assert_eq!(check_dependencies(&two, &apis), Ok(vec![DependencyProblem::Incompatible(1, 0)]));
}

#[test]
fn firing_stops_at_the_first_refusal() {
    assert_eq!(fire_outcome(&vec![]), (0, true));
    assert_eq!(fire_outcome(&vec![true, true]), (2, true));
    assert_eq!(fire_outcome(&vec![true, false, true]), (2, false));
    assert_eq!(fire_outcome(&vec![false]), (1, false));
}

#[test]
fn safe_strings_compare_by_text() {
    let a = String::from("plugin");
    assert!(SStr::from_str("plugin") == SStr::from_str(&a));
    assert!(SStr::from_str("plugin") != SStr::from_str("plugins"));
    let hash = |x: SStr| {
        let mut h = DefaultHasher::new();
        x.hash(&mut h);
        h.finish()
    };
    assert_eq!(hash(SStr::from_str("plugin")), hash(SStr::from_str(&a)));
    assert!(SString::from_string(String::from("x")) == SString::from_string(String::from("x")));
    assert!(SString::from_string(String::from("x")) != SString::from_string(String::from("y")));
}

#[test]
fn start_fires_once() {
    let mut started = false;
    assert!(start_once(&mut started));
    assert!(!start_once(&mut started));
    assert!(!start_once(&mut started));
}
