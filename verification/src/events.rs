//! The events that plugins fire and subscribe to: event ids by name, and for
//! each event its callbacks, kept in the order in which they run.
use crate::text::{chars_lt, lemma_chars_lt_asym, lemma_chars_lt_total, lemma_chars_lt_trans, str_eq, str_lt};
use vstd::prelude::*;

verus! {

/// The position of the first name equal to `name`.
pub open spec fn first_index(names: Seq<String>, name: Seq<char>) -> Option<nat>
    decreases names.len(),
{
    if names.len() == 0 {
        None
    } else if names[0]@ == name {
        Some(0)
    } else {
        match first_index(names.skip(1), name) {
            Some(i) => Some(i + 1),
            None => None,
        }
    }
}

fn position_of(names: &Vec<String>, name: &str) -> (res: Option<usize>)
    ensures
        match res {
            Some(i) => first_index(names@, name@) == Some(i as nat),
            None => first_index(names@, name@) is None,
        },
{
    let mut i: usize = 0;
    while i < names.len()
        invariant
            i <= names@.len(),
            forall|j: int| 0 <= j < i ==> names@[j]@ != name@,
        decreases names@.len() - i,
    {
        if str_eq(names[i].as_str(), name) {
            proof {
                lemma_first_index_prefix(names@, name@, i as int);
            }
            return Some(i);
        }
        i = i + 1;
    }
    proof {
        lemma_first_index_prefix(names@, name@, names@.len() as int);
    }
    None
}

/// The first match lies at `k` when no earlier name matches and the one at `k` does.
pub proof fn lemma_first_index_prefix(names: Seq<String>, name: Seq<char>, k: int)
    requires
        0 <= k <= names.len(),
        forall|j: int| 0 <= j < k ==> names[j]@ != name,
    ensures
        k < names.len() && names[k]@ == name ==> first_index(names, name) == Some(k as nat),
        k == names.len() ==> first_index(names, name) is None,
    decreases k,
{
    if k > 0 {
        let rest = names.skip(1);
        assert forall|j: int| 0 <= j < k - 1 implies rest[j]@ != name by {
            assert(rest[j] == names[j + 1]);
        }
        lemma_first_index_prefix(rest, name, k - 1);
    }
}

/// A callback that a plugin registered for an event. `callback` identifies the
/// function; `priority` stands for the callback's `f64` priority by its place
/// in the order of `f64::total_cmp`, so that comparing two of them compares
/// the priorities.
#[derive(Clone, Debug)]
pub struct Callback {
    pub plugin_name: String,
    pub callback: u64,
    pub priority: i64,
}

/// Whether callback `a` runs before `b`: the lower priority first, and of two
/// equal priorities the plugin name that sorts first.
pub open spec fn runs_before(a: Callback, b: Callback) -> bool {
    a.priority < b.priority || (a.priority == b.priority && chars_lt(
        a.plugin_name@,
        b.plugin_name@,
    ))
}

/// Callbacks in the order in which they run: none runs before one listed
/// ahead of it.
pub open spec fn in_run_order(s: Seq<Callback>) -> bool {
    forall|i: int, j: int| 0 <= i < j < s.len() ==> !runs_before(#[trigger] s[j], #[trigger] s[i])
}

/// Whether some callback of the list is the function `callback`.
pub open spec fn has_callback(s: Seq<Callback>, callback: u64) -> bool {
    exists|i: int| 0 <= i < s.len() && (#[trigger] s[i]).callback == callback
}

/// The first position of the function `callback` in the list is `i`.
pub open spec fn first_callback_at(s: Seq<Callback>, callback: u64, i: int) -> bool {
    &&& 0 <= i < s.len()
    &&& s[i].callback == callback
    &&& forall|j: int| 0 <= j < i ==> (#[trigger] s[j]).callback != callback
}

/// All known events: the name of each, and its callbacks.
pub struct Events {
    pub names: Vec<String>,
    pub callbacks: Vec<Vec<Callback>>,
}

impl Events {
    /// Each event has its list of callbacks, in the order in which they run.
    pub open spec fn wf(&self) -> bool {
        &&& self.names@.len() == self.callbacks@.len()
        &&& forall|e: int|
            0 <= e < self.callbacks@.len() ==> in_run_order(#[trigger] self.callbacks@[e]@)
    }

    /// The events at startup: only "start", with the server's own callback,
    /// which has no plugin name.
    pub fn new(start_callback: u64, start_priority: i64) -> (res: Self)
        ensures
            res.wf(),
            res.names@.len() == 1,
            res.names@[0]@ == "start"@,
            res.callbacks@[0]@.len() == 1,
            res.callbacks@[0]@[0].plugin_name@.len() == 0,
            res.callbacks@[0]@[0].callback == start_callback,
            res.callbacks@[0]@[0].priority == start_priority,
    {
        let start = Callback {
            plugin_name: String::new(),
            callback: start_callback,
            priority: start_priority,
        };
        let mut list: Vec<Callback> = Vec::new();
        list.push(start);
        let mut names: Vec<String> = Vec::new();
        names.push(String::from_str("start"));
        let mut callbacks: Vec<Vec<Callback>> = Vec::new();
        callbacks.push(list);
        Events { names, callbacks }
    }
}

/// The id of an event: its position among the known events, which a new
/// event name joins at the end, with no callbacks.
pub fn get_event_id(events: &mut Events, event: &str) -> (res: usize)
    requires
        old(events).wf(),
        old(events).names@.len() < usize::MAX,
    ensures
        final(events).wf(),
        match first_index(old(events).names@, event@) {
            Some(i) => res == i && final(events).names@ == old(events).names@
                && final(events).callbacks@ == old(events).callbacks@,
            None => {
                &&& res == old(events).names@.len()
                &&& final(events).names@.len() == old(events).names@.len() + 1
                &&& final(events).names@.take(res as int) == old(events).names@
                &&& final(events).names@[res as int]@ == event@
                &&& final(events).callbacks@.take(res as int) == old(events).callbacks@
                &&& final(events).callbacks@[res as int]@.len() == 0
            },
        },
{
    match position_of(&events.names, event) {
        Some(p) => p,
        None => {
            // add the event name and return its position
            events.names.push(String::from_str(event));
            events.callbacks.push(Vec::new());
            assert(events.names@.take(old(events).names@.len() as int) =~= old(events).names@);
            assert(events.callbacks@.take(old(events).names@.len() as int)
                =~= old(events).callbacks@);
            assert forall|e: int| 0 <= e < events.callbacks@.len() implies in_run_order(
                #[trigger] events.callbacks@[e]@,
            ) by {
                if e < old(events).callbacks@.len() {
                    assert(events.callbacks@[e] == old(events).callbacks@[e]);
                }
            }
            events.names.len() - 1
        },
    }
}

/// Why a callback is not registered or not removed.
#[derive(Clone, Copy, Debug, PartialEq, Eq, Structural)]
pub enum CallbackError {
    /// callbacks without a plugin name are reserved for the server itself
    NoPluginName,
    /// no event with such ID exists
    NoSuchEvent,
    /// an identical callback is already registered, at this position
    Duplicate(usize),
    /// the event has no such callback
    NotFound,
}

/// Whether `a` runs before `b`.
fn callback_runs_before(a: &Callback, b: &Callback) -> (res: bool)
    ensures
        res == runs_before(*a, *b),
{
    a.priority < b.priority || (a.priority == b.priority && str_lt(
        a.plugin_name.as_str(),
        b.plugin_name.as_str(),
    ))
}

/// Of two callbacks, at most one runs before the other.
proof fn lemma_runs_before_asym(a: Callback, b: Callback)
    ensures
        !(runs_before(a, b) && runs_before(b, a)),
{
    lemma_chars_lt_asym(a.plugin_name@, b.plugin_name@);
}

/// A callback that runs before `y` runs before every `z` that `y` does not
/// follow.
proof fn lemma_runs_before_then(x: Callback, y: Callback, z: Callback)
    requires
        runs_before(x, y),
        !runs_before(z, y),
    ensures
        runs_before(x, z),
{
    if x.priority == y.priority && y.priority == z.priority {
        if chars_lt(y.plugin_name@, z.plugin_name@) {
            lemma_chars_lt_trans(x.plugin_name@, y.plugin_name@, z.plugin_name@);
        } else {
            lemma_chars_lt_total(y.plugin_name@, z.plugin_name@);
        }
    }
}

/// Where a new callback goes: after every callback that it does not run
/// before, ahead of the others.
fn insertion_point(list: &Vec<Callback>, new: &Callback) -> (res: usize)
    requires
        in_run_order(list@),
    ensures
        res <= list@.len(),
        forall|i: int| 0 <= i < res ==> !runs_before(*new, #[trigger] list@[i]),
        forall|j: int| res <= j < list@.len() ==> runs_before(*new, #[trigger] list@[j]),
{
    let mut i: usize = 0;
    while i < list.len()
        invariant
            in_run_order(list@),
            i <= list@.len(),
            forall|k: int| 0 <= k < i ==> !runs_before(*new, #[trigger] list@[k]),
        decreases list@.len() - i,
    {
        if callback_runs_before(new, &list[i]) {
            proof {
                assert forall|j: int| i <= j < list@.len() implies runs_before(
                    *new,
                    #[trigger] list@[j],
                ) by {
                    if j > i {
                        assert(!runs_before(list@[j], list@[i as int]));
                        lemma_runs_before_then(*new, list@[i as int], list@[j]);
                    }
                }
            }
            return i;
        }
        i = i + 1;
    }
    i
}

/// The first position of the function `callback` in the list, if it is there.
fn find_callback(list: &Vec<Callback>, callback: u64) -> (res: Option<usize>)
    ensures
        match res {
            Some(i) => first_callback_at(list@, callback, i as int),
            None => !has_callback(list@, callback),
        },
{
    let mut i: usize = 0;
    while i < list.len()
        invariant
            i <= list@.len(),
            forall|j: int| 0 <= j < i ==> (#[trigger] list@[j]).callback != callback,
        decreases list@.len() - i,
    {
        if list[i].callback == callback {
            return Some(i);
        }
        i = i + 1;
    }
    None
}

/// Adding a callback where `insertion_point` puts it keeps the order.
proof fn lemma_insert_in_order(before: Seq<Callback>, p: int, x: Callback)
    requires
        in_run_order(before),
        0 <= p <= before.len(),
        forall|i: int| 0 <= i < p ==> !runs_before(x, #[trigger] before[i]),
        forall|j: int| p <= j < before.len() ==> runs_before(x, #[trigger] before[j]),
    ensures
        in_run_order(before.insert(p, x)),
{
    let after = before.insert(p, x);
    assert forall|i: int, j: int| 0 <= i < j < after.len() implies !runs_before(
        #[trigger] after[j],
        #[trigger] after[i],
    ) by {
        if j == p {
            assert(after[i] == before[i]);
        } else if i == p {
            assert(after[j] == before[j - 1]);
            lemma_runs_before_asym(x, before[j - 1]);
        } else {
            let bi = if i < p { i } else { i - 1 };
            let bj = if j < p { j } else { j - 1 };
            assert(after[i] == before[bi] && after[j] == before[bj]);
        }
    }
}

/// Removing a callback keeps the order of the others.
proof fn lemma_remove_in_order(before: Seq<Callback>, k: int)
    requires
        in_run_order(before),
        0 <= k < before.len(),
    ensures
        in_run_order(before.remove(k)),
{
    let after = before.remove(k);
    assert forall|i: int, j: int| 0 <= i < j < after.len() implies !runs_before(
        #[trigger] after[j],
        #[trigger] after[i],
    ) by {
        let bi = if i < k { i } else { i + 1 };
        let bj = if j < k { j } else { j + 1 };
        assert(after[i] == before[bi] && after[j] == before[bj]);
    }
}

/// Takes the list of callbacks of event `e` out, leaving it empty.
fn take_callbacks(events: &mut Events, e: usize) -> (res: Vec<Callback>)
    requires
        old(events).wf(),
        e < old(events).callbacks@.len(),
    ensures
        final(events).wf(),
        final(events).names@ == old(events).names@,
        final(events).callbacks@.len() == old(events).callbacks@.len(),
        final(events).callbacks@[e as int]@.len() == 0,
        forall|k: int|
            0 <= k < old(events).callbacks@.len() && k != e ==> (#[trigger] final(events).callbacks@[k])
                == old(events).callbacks@[k],
        res@ == old(events).callbacks@[e as int]@,
{
    let list = events.callbacks.remove(e);
    events.callbacks.insert(e, Vec::new());
    proof {
        let cbs = events.callbacks@;
        assert forall|k: int| 0 <= k < cbs.len() implies in_run_order(#[trigger] cbs[k]@) by {
            if k != e {
                assert(cbs[k] == old(events).callbacks@[k]);
            }
        }
    }
    list
}

/// Puts a new list of callbacks in place of the list of event `e`.
fn replace_callbacks(events: &mut Events, e: usize, list: Vec<Callback>)
    requires
        old(events).wf(),
        e < old(events).callbacks@.len(),
        in_run_order(list@),
    ensures
        final(events).wf(),
        final(events).names@ == old(events).names@,
        final(events).callbacks@ == old(events).callbacks@.update(e as int, list),
{
    let _ = events.callbacks.remove(e);
    events.callbacks.insert(e, list);
    proof {
        let cbs = events.callbacks@;
        assert(cbs =~= old(events).callbacks@.update(e as int, list));
        assert forall|k: int| 0 <= k < cbs.len() implies in_run_order(#[trigger] cbs[k]@) by {
            if k != e {
                assert(cbs[k] == old(events).callbacks@[k]);
            }
        }
    }
}

/// Registers a plugin's callback for an event. The callbacks of the event stay
/// in the order in which they run: the new one goes after all that it does
/// not run before, which keeps callbacks of equal priority and plugin name in
/// the order in which they were added.
pub fn add_event_callback(
    events: &mut Events,
    event_id: usize,
    plugin_name: &str,
    callback: u64,
    priority: i64,
) -> (res: Result<(), CallbackError>)
    requires
        old(events).wf(),
    ensures
        final(events).wf(),
        final(events).names@ == old(events).names@,
        plugin_name@.len() == 0 ==> res == Err::<(), CallbackError>(CallbackError::NoPluginName),
        plugin_name@.len() > 0 && event_id >= old(events).callbacks@.len() ==> res == Err::<
            (),
            CallbackError,
        >(CallbackError::NoSuchEvent),
        res is Err ==> final(events).callbacks@ == old(events).callbacks@,
        plugin_name@.len() > 0 && event_id < old(events).callbacks@.len() ==> {
            let before = old(events).callbacks@[event_id as int]@;
            let after = final(events).callbacks@[event_id as int]@;
            match res {
                Err(CallbackError::Duplicate(i)) => first_callback_at(before, callback, i as int),
                Ok(()) => {
                    &&& !has_callback(before, callback)
                    &&& final(events).callbacks@.len() == old(events).callbacks@.len()
                    &&& forall|e: int|
                        0 <= e < old(events).callbacks@.len() && e != event_id ==> (
                        #[trigger] final(events).callbacks@[e]) == old(events).callbacks@[e]
                    &&& exists|p: int|
                        0 <= p <= before.len() && after.len() == before.len() + 1 && after.take(p)
                            == before.take(p) && after.skip(p + 1) == before.skip(p)
                            && after[p].plugin_name@ == plugin_name@ && after[p].callback
                            == callback && after[p].priority == priority && (forall|i: int|
                            0 <= i < p ==> !runs_before(after[p], #[trigger] before[i])) && (
                        forall|j: int| p <= j < before.len() ==> runs_before(after[p], #[trigger] before[j]))
                },
                Err(_) => false,
            }
        },
{
    // Callbacks with "" as plugin_name are reserved for the server itself, not
    // plugins: the "start" event has such a callback, which keeps it from
    // being fired more than once.
    if plugin_name.unicode_len() == 0 {
        return Err(CallbackError::NoPluginName);
    }
    // Make sure event ID is valid
    if event_id >= events.callbacks.len() {
        return Err(CallbackError::NoSuchEvent);
    }
    // Make sure the same callback is not already registered
    if let Some(i) = find_callback(&events.callbacks[event_id], callback) {
        return Err(CallbackError::Duplicate(i));
    }
    let new = Callback { plugin_name: String::from_str(plugin_name), callback, priority };
    let ghost before = events.callbacks@[event_id as int]@;
    let p = insertion_point(&events.callbacks[event_id], &new);
    let mut list = take_callbacks(events, event_id);
    list.insert(p, new);
    proof {
        lemma_insert_in_order(before, p as int, new);
    }
    replace_callbacks(events, event_id, list);
    proof {
        let after = events.callbacks@[event_id as int]@;
        assert(after[p as int] == new);
        assert(after.take(p as int) =~= before.take(p as int));
        assert(after.skip(p + 1) =~= before.skip(p as int));
    }
    Ok(())
}

/// Removes a callback from an event: its first occurrence.
pub fn remove_event_callback(events: &mut Events, event_id: usize, callback: u64) -> (res: Result<
    (),
    CallbackError,
>)
    requires
        old(events).wf(),
    ensures
        final(events).wf(),
        final(events).names@ == old(events).names@,
        event_id >= old(events).callbacks@.len() ==> res == Err::<(), CallbackError>(
            CallbackError::NoSuchEvent,
        ),
        res is Err ==> final(events).callbacks@ == old(events).callbacks@,
        event_id < old(events).callbacks@.len() ==> {
            let before = old(events).callbacks@[event_id as int]@;
            let after = final(events).callbacks@[event_id as int]@;
            match res {
                Err(CallbackError::NotFound) => !has_callback(before, callback),
                Ok(()) => {
                    &&& final(events).callbacks@.len() == old(events).callbacks@.len()
                    &&& forall|e: int|
                        0 <= e < old(events).callbacks@.len() && e != event_id ==> (
                        #[trigger] final(events).callbacks@[e]) == old(events).callbacks@[e]
                    &&& exists|i: int|
                        first_callback_at(before, callback, i) && after == before.remove(i)
                },
                Err(_) => false,
            }
        },
{
    // Make sure event ID is valid
    if event_id >= events.callbacks.len() {
        return Err(CallbackError::NoSuchEvent);
    }
    let index = match find_callback(&events.callbacks[event_id], callback) {
        Some(n) => n,
        None => {
            return Err(CallbackError::NotFound);
        },
    };
    let ghost before = events.callbacks@[event_id as int]@;
    let mut list = take_callbacks(events, event_id);
    list.remove(index);
    proof {
        lemma_remove_in_order(before, index as int);
    }
    replace_callbacks(events, event_id, list);
    Ok(())
}

/// Removing a callback right after adding it gives back the event's
/// callbacks as they were: `before` did not have it, `after` is `before` with
/// it added at `p`, and `i` is its first position in `after`.
pub proof fn lemma_add_then_remove(
    before: Seq<Callback>,
    after: Seq<Callback>,
    p: int,
    callback: u64,
    i: int,
)
    requires
        !has_callback(before, callback),
        0 <= p <= before.len(),
        after.len() == before.len() + 1,
        after.take(p) == before.take(p),
        after.skip(p + 1) == before.skip(p),
        after[p].callback == callback,
        first_callback_at(after, callback, i),
    ensures
        after.remove(i) == before,
{
    if i < p {
        assert(after.take(p)[i] == before[i]);
        assert(before[i].callback == callback);
    } else if i > p {
        assert(after[p].callback != callback);
    }
    assert forall|k: int| 0 <= k < before.len() implies #[trigger] after.remove(p)[k] == before[k] by {
        if k < p {
            assert(after.take(p)[k] == before.take(p)[k]);
        } else {
            assert(after.skip(p + 1)[k - p] == before.skip(p)[k - p]);
        }
    }
    assert(after.remove(p) =~= before);
}

/// The functions of a list of callbacks.
pub open spec fn callback_ids(s: Seq<Callback>) -> Seq<u64> {
    s.map_values(|c: Callback| c.callback)
}

/// The callbacks that firing an event runs, in order, until one of them
/// returns `false`; `None` when no event with such ID exists, in which case
/// firing it fails.
pub fn callbacks_to_fire(events: &Events, event_id: usize) -> (res: Option<Vec<u64>>)
    ensures
        event_id >= events.callbacks@.len() ==> res is None,
        event_id < events.callbacks@.len() ==> res is Some && res->Some_0@ == callback_ids(
            events.callbacks@[event_id as int]@,
        ),
{
    if event_id >= events.callbacks.len() {
        return None;
    }
    let list = &events.callbacks[event_id];
    let mut ids: Vec<u64> = Vec::new();
    let mut i: usize = 0;
    while i < list.len()
        invariant
            i <= list@.len(),
            ids@ == list@.take(i as int).map_values(|c: Callback| c.callback),
        decreases list@.len() - i,
    {
        ids.push(list[i].callback);
        i = i + 1;
        assert(ids@ =~= list@.take(i as int).map_values(|c: Callback| c.callback));
    }
    assert(list@.take(list@.len() as int) =~= list@);
    Some(ids)
}

proof fn lemma_first_index_none(names: Seq<String>, name: Seq<char>, j: int)
    requires
        first_index(names, name) is None,
        0 <= j < names.len(),
    ensures
        names[j]@ != name,
    decreases names.len(),
{
    if j > 0 {
        lemma_first_index_none(names.skip(1), name, j - 1);
    }
}

/// Asking for the id of an event a second time gives the id it was given the
/// first time: a new name is found again at the end, where it was added.
pub proof fn lemma_event_id_stable(before: Seq<String>, after: Seq<String>, name: Seq<char>)
    requires
        first_index(before, name) is None,
        after.len() == before.len() + 1,
        after.take(before.len() as int) == before,
        after[before.len() as int]@ == name,
    ensures
        first_index(after, name) == Some(before.len()),
{
    assert forall|j: int| 0 <= j < before.len() implies after[j]@ != name by {
        lemma_first_index_none(before, name, j);
        assert(after.take(before.len() as int)[j] == after[j]);
    }
    lemma_first_index_prefix(after, name, before.len() as int);
}

/// The server's own callback for the "start" event, which lets the event
/// through only the first time it is fired: `started` records whether it was.
pub fn start_once(started: &mut bool) -> (res: bool)
    ensures
        res == !*old(started),
        *final(started),
{
    // make sure the "start" event isnt fired more than once
    if *started {
        return false;
    }
    *started = true;
    true
}

/// What firing an event comes to, given what each of its callbacks, in run
/// order, returns: the callbacks run one after another until one returns
/// `false`, and the event is handled (`true`) only when none did. The result
/// is how many callbacks ran, and whether the event was handled.
pub fn fire_outcome(results: &Vec<bool>) -> (res: (usize, bool))
    ensures
        res.1 <==> forall|i: int| 0 <= i < results@.len() ==> #[trigger] results@[i],
        res.1 ==> res.0 == results@.len(),
        !res.1 ==> 1 <= res.0 <= results@.len() && !results@[res.0 - 1] && forall|i: int|
            0 <= i < res.0 - 1 ==> #[trigger] results@[i],
{
    let mut i: usize = 0;
    while i < results.len()
        invariant
            i <= results@.len(),
            forall|k: int| 0 <= k < i ==> #[trigger] results@[k],
        decreases results@.len() - i,
    {
        if !results[i] {
            return (i + 1, false);
        }
        i = i + 1;
    }
    (i, true)
}

} // verus!
