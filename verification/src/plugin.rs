//! What the plugin interface keeps and checks: the levels of log messages,
//! the globals a plugin is given once, and whether a plugin's API matches the
//! version another plugin was built against.
use crate::text::{split_str, split_on, parse_u64, parse_u64_spec, str_eq};
use vstd::prelude::*;

verus! {

/// The level of a log message.
#[derive(Clone, Copy, Debug, PartialEq, Eq, Structural)]
pub enum LogLevel {
    Error,
    Warn,
    Info,
    Debug,
    Trace,
}

/// What a plugin is given once when it starts: its id and the host's vtable.
pub struct PluginGlobals<V> {
    pub plugin_id: Option<usize>,
    pub vtable: Option<V>,
}

impl<V> PluginGlobals<V> {
    pub fn new() -> (res: Self)
        ensures
            res.plugin_id is None,
            res.vtable is None,
    {
        PluginGlobals { plugin_id: None, vtable: None }
    }
}

/// The plugin's id; it must have been set.
pub fn get_plugin_id<V>(globals: &PluginGlobals<V>) -> (res: usize)
    requires
        globals.plugin_id is Some,
    ensures
        globals.plugin_id == Some(res),
{
    globals.plugin_id.unwrap()
}

/// The host's vtable; it must have been set.
pub fn get_vtable<V: Copy>(globals: &PluginGlobals<V>) -> (res: V)
    requires
        globals.vtable is Some,
    ensures
        globals.vtable == Some(res),
{
    globals.vtable.unwrap()
}

/// Sets the plugin's id, which can be set only once.
pub fn set_plugin_id<V>(globals: &mut PluginGlobals<V>, id: usize)
    requires
        old(globals).plugin_id is None,
    ensures
        final(globals).plugin_id == Some(id),
        final(globals).vtable == old(globals).vtable,
{
    globals.plugin_id = Some(id);
}

/// Sets the host's vtable, which can be set only once.
pub fn set_vtable<V>(globals: &mut PluginGlobals<V>, vtable: V)
    requires
        old(globals).vtable is None,
    ensures
        final(globals).vtable == Some(vtable),
        final(globals).plugin_id == old(globals).plugin_id,
{
    globals.vtable = Some(vtable);
}

/// A type that is a plugin's API: the name and version of the package that
/// defines it, `<major>.<minor>.<patch>`.
pub trait PluginApi {
    /// The name of the package that defines the API; each implementation
    /// gives it.
    closed spec fn spec_pkg_name() -> Seq<char> {
        vstd::pervasive::arbitrary()
    }

    /// The version of the package that defines the API; each implementation
    /// gives it.
    closed spec fn spec_pkg_version() -> Seq<char> {
        vstd::pervasive::arbitrary()
    }

    fn pkg_name() -> (res: &'static str)
        ensures
            res@ == Self::spec_pkg_name(),
    ;

    fn pkg_version() -> (res: &'static str)
        ensures
            res@ == Self::spec_pkg_version(),
    ;
}

/// What other plugins are told of an API, to check that they read it as the
/// type it was made from.
#[derive(Clone, Copy, Debug)]
pub struct PluginApiPtr {
    pub pkg_name: &'static str,
    pub pkg_version: &'static str,
}

impl PluginApiPtr {
    /// Records the package of a plugin API.
    pub fn new<T: PluginApi>(_plugin_api: &'static T) -> (res: Self)
        ensures
            res.pkg_name@ == T::spec_pkg_name(),
            res.pkg_version@ == T::spec_pkg_version(),
    {
        Self { pkg_name: T::pkg_name(), pkg_version: T::pkg_version() }
    }
}

/// A version `<major>.<minor>.<patch>`: three numbers and nothing more.
pub open spec fn version_triple(v: Seq<char>) -> Option<(u64, u64, u64)> {
    let parts = split_on(v, '.');
    if parts.len() == 3 {
        match (parse_u64_spec(parts[0]), parse_u64_spec(parts[1]), parse_u64_spec(parts[2])) {
            (Some(a), Some(b), Some(c)) => Some((a, b, c)),
            _ => None,
        }
    } else {
        None
    }
}

/// Splits a version `<major>.<minor>.<patch>` into its three numbers.
pub fn split_version(version: &str) -> (res: Option<(u64, u64, u64)>)
    ensures
        res == version_triple(version@),
{
    let parts = split_str(version, '.');
    if parts.len() != 3 {
        return None;
    }
    let major = match parse_u64(parts[0].as_str()) {
        Some(x) => x,
        None => {
            return None;
        },
    };
    let minor = match parse_u64(parts[1].as_str()) {
        Some(x) => x,
        None => {
            return None;
        },
    };
    let patch = match parse_u64(parts[2].as_str()) {
        Some(x) => x,
        None => {
            return None;
        },
    };
    Some((major, minor, patch))
}

/// Whether an API of version `provided` can be read as version `expected`:
/// under 1.0 the versions must be equal, from 1.0 on the major and minor
/// numbers.
pub open spec fn api_compatible(expected: Seq<char>, provided: Seq<char>) -> bool {
    let (my_major, my_minor, _) = version_triple(expected).unwrap();
    let (og_major, og_minor, _) = version_triple(provided).unwrap();
    if og_major == 0 {
        expected == provided
    } else {
        my_major == og_major && my_minor == og_minor
    }
}

impl PluginApiPtr {
    /// Checks that the API can be read as the package `name` of version
    /// `version`: the names must be equal and the versions compatible. Both
    /// versions must be well formed.
    pub fn compatible_with(&self, name: &str, version: &str) -> (res: bool)
        requires
            version_triple(version@) is Some,
            version_triple(self.pkg_version@) is Some,
        ensures
            res == (name@ == self.pkg_name@ && api_compatible(version@, self.pkg_version@)),
    {
        if !str_eq(name, self.pkg_name) {
            return false;
        }
        let (my_major, my_minor, _my_patch) = split_version(version).unwrap();
        let (og_major, og_minor, _og_patch) = split_version(self.pkg_version).unwrap();
        if og_major == 0 {
            str_eq(version, self.pkg_version)
        } else {
            my_major == og_major && my_minor == og_minor
        }
    }
}

/// A plugin API is compatible with itself: the pointer that `PluginApiPtr::new`
/// makes of an API of type `T` passes the check for `T`'s own package name
/// and version, once that version is well formed.
pub proof fn lemma_own_api_compatible<T: PluginApi>(p: PluginApiPtr)
    requires
        p.pkg_name@ == T::spec_pkg_name(),
        p.pkg_version@ == T::spec_pkg_version(),
        version_triple(T::spec_pkg_version()) is Some,
    ensures
        T::spec_pkg_name() == p.pkg_name@ && api_compatible(T::spec_pkg_version(), p.pkg_version@),
{
}

/// Whether an earlier name equals name `i`.
pub open spec fn taken_before(names: Seq<String>, i: int) -> bool {
    exists|j: int| 0 <= j < i && names[j]@ == names[i]@
}

/// The names among the first `n` that an earlier plugin already has, in order.
pub open spec fn collisions_upto(names: Seq<String>, n: int) -> Seq<Seq<char>>
    decreases n,
{
    if n <= 0 {
        Seq::empty()
    } else if taken_before(names, n - 1) {
        collisions_upto(names, n - 1).push(names[n - 1]@)
    } else {
        collisions_upto(names, n - 1)
    }
}

/// Plugins must have unique names: the names of the plugins whose name an
/// earlier plugin already has, in the order of the plugins.
pub fn name_collisions(names: &Vec<String>) -> (res: Vec<String>)
    ensures
        res@.len() == collisions_upto(names@, names@.len() as int).len(),
        forall|k: int|
            0 <= k < res@.len() ==> (#[trigger] res@[k])@ == collisions_upto(
                names@,
                names@.len() as int,
            )[k],
{
    let mut res: Vec<String> = Vec::new();
    let mut i: usize = 0;
    while i < names.len()
        invariant
            i <= names@.len(),
            res@.len() == collisions_upto(names@, i as int).len(),
            forall|k: int|
                0 <= k < res@.len() ==> (#[trigger] res@[k])@ == collisions_upto(names@, i as int)[k],
        decreases names@.len() - i,
    {
        let mut j: usize = 0;
        let mut found = false;
        while j < i
            invariant
                i < names@.len(),
                j <= i,
                found == exists|m: int| 0 <= m < j && names@[m]@ == names@[i as int]@,
            decreases i - j,
        {
            if str_eq(names[j].as_str(), names[i].as_str()) {
                found = true;
            }
            j = j + 1;
        }
        if found {
            res.push(names[i].clone());
        }
        i = i + 1;
    }
    res
}

} // verus!
