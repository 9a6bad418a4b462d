//! The moderation commands: who may use them, which permissions who may set,
//! how a ban's duration is written out, and what tab completion offers.
use crate::text::{
    str_eq, starts_with, split_str, split_on, format_i64, signed_decimal, chars_of,
    string_from_chars,
};
use vstd::prelude::*;

verus! {

/// What a player may do on the server.
#[derive(Clone, Copy, Debug, PartialEq, Eq, Structural, Default)]
pub struct Permissions {
    pub owner: bool,
    pub admin: bool,
    pub edit_lobby: bool,
    pub ban_usernames: bool,
    pub ban_ips: bool,
}

/// Whether the command (the first word of the message) is one of the
/// moderation commands and the player may use it; otherwise the message is
/// left to others.
pub open spec fn spec_handles_command(command: Seq<char>, p: Permissions) -> bool {
    if command == "/banip"@ || command == "/unbanip"@ {
        p.ban_ips
    } else if command == "/setperm"@ {
        p.admin || p.owner
    } else if command == "/perms"@ {
        p.admin
    } else if command == "/ban"@ || command == "/unban"@ {
        p.ban_usernames
    } else {
        false
    }
}

pub fn handles_command(command: &str, p: &Permissions) -> (res: bool)
    ensures
        res == spec_handles_command(command@, *p),
{
    if str_eq(command, "/banip") || str_eq(command, "/unbanip") {
        p.ban_ips
    } else if str_eq(command, "/setperm") {
        p.admin || p.owner
    } else if str_eq(command, "/perms") {
        p.admin
    } else if str_eq(command, "/ban") || str_eq(command, "/unban") {
        p.ban_usernames
    } else {
        false
    }
}

/// A permission that `/setperm` sets.
#[derive(Clone, Copy, Debug, PartialEq, Eq, Structural)]
pub enum Permission {
    Owner,
    Admin,
    EditLobby,
    BanUsernames,
    BanIps,
}

pub open spec fn spec_permission_named(s: Seq<char>) -> Option<Permission> {
    if s == "owner"@ {
        Some(Permission::Owner)
    } else if s == "admin"@ {
        Some(Permission::Admin)
    } else if s == "edit_lobby"@ {
        Some(Permission::EditLobby)
    } else if s == "ban_usernames"@ {
        Some(Permission::BanUsernames)
    } else if s == "ban_ips"@ {
        Some(Permission::BanIps)
    } else {
        None
    }
}

/// The permission with this name, if there is one.
pub fn permission_named(s: &str) -> (res: Option<Permission>)
    ensures
        res == spec_permission_named(s@),
{
    if str_eq(s, "owner") {
        Some(Permission::Owner)
    } else if str_eq(s, "admin") {
        Some(Permission::Admin)
    } else if str_eq(s, "edit_lobby") {
        Some(Permission::EditLobby)
    } else if str_eq(s, "ban_usernames") {
        Some(Permission::BanUsernames)
    } else if str_eq(s, "ban_ips") {
        Some(Permission::BanIps)
    } else {
        None
    }
}

/// Why a player may not set a permission.
#[derive(Clone, Copy, Debug, PartialEq, Eq, Structural)]
pub enum SetPermError {
    /// Only owners can set the owner and admin permissions.
    OnlyOwners,
    /// Only admins can set the other permissions.
    OnlyAdmins,
}

/// Owners set the owner and admin permissions, admins the others.
pub open spec fn spec_may_set(setter: Permissions, p: Permission) -> Result<(), SetPermError> {
    match p {
        Permission::Owner | Permission::Admin => if setter.owner {
            Ok(())
        } else {
            Err(SetPermError::OnlyOwners)
        },
        _ => if setter.admin {
            Ok(())
        } else {
            Err(SetPermError::OnlyAdmins)
        },
    }
}

pub fn may_set(setter: &Permissions, p: Permission) -> (res: Result<(), SetPermError>)
    ensures
        res == spec_may_set(*setter, p),
{
    match p {
        Permission::Owner | Permission::Admin => if setter.owner {
            Ok(())
        } else {
            Err(SetPermError::OnlyOwners)
        },
        _ => if setter.admin {
            Ok(())
        } else {
            Err(SetPermError::OnlyAdmins)
        },
    }
}

/// Sets one permission of a player; the others stay.
pub fn set_permission(target: &mut Permissions, p: Permission, value: bool)
    ensures
        final(target).owner == if p == Permission::Owner {
            value
        } else {
            old(target).owner
        },
        final(target).admin == if p == Permission::Admin {
            value
        } else {
            old(target).admin
        },
        final(target).edit_lobby == if p == Permission::EditLobby {
            value
        } else {
            old(target).edit_lobby
        },
        final(target).ban_usernames == if p == Permission::BanUsernames {
            value
        } else {
            old(target).ban_usernames
        },
        final(target).ban_ips == if p == Permission::BanIps {
            value
        } else {
            old(target).ban_ips
        },
{
    match p {
        Permission::Owner => target.owner = value,
        Permission::Admin => target.admin = value,
        Permission::EditLobby => target.edit_lobby = value,
        Permission::BanUsernames => target.ban_usernames = value,
        Permission::BanIps => target.ban_ips = value,
    }
}

/// What `str::parse::<bool>` reads: exactly "true" or "false".
pub open spec fn spec_parse_bool(s: Seq<char>) -> Option<bool> {
    if s == "true"@ {
        Some(true)
    } else if s == "false"@ {
        Some(false)
    } else {
        None
    }
}

pub fn parse_bool(s: &str) -> (res: Option<bool>)
    ensures
        res == spec_parse_bool(s@),
{
    if str_eq(s, "true") {
        Some(true)
    } else if str_eq(s, "false") {
        Some(false)
    } else {
        None
    }
}

// Ban durations //
///////////////////

/// The largest number of minutes that a duration holds: it counts milliseconds in an `i64`.
pub const MAX_MINUTES: i64 = 153_722_867_280_912;

/// A number and a unit, followed by a space.
pub open spec fn amount(n: int, unit: Seq<char>) -> Seq<char> {
    signed_decimal(n) + seq![' '] + unit + seq![' ']
}

/// A ban's duration in words: the weeks, days, hours and minutes that are not
/// zero, largest first; "0 minutes" for none, and the minutes alone when negative.
pub open spec fn duration_text(minutes: int) -> Seq<char> {
    if minutes < 0 {
        signed_decimal(minutes) + " minutes"@
    } else {
        let w = minutes / 10080;
        let d = (minutes % 10080) / 1440;
        let h = (minutes % 1440) / 60;
        let m = minutes % 60;
        let text = (if w > 0 {
            amount(w, "weeks"@)
        } else {
            Seq::empty()
        }) + (if d > 0 {
            amount(d, "days"@)
        } else {
            Seq::empty()
        }) + (if h > 0 {
            amount(h, "hours"@)
        } else {
            Seq::empty()
        }) + (if m > 0 || minutes == 0 {
            amount(m, "minutes"@)
        } else {
            Seq::empty()
        });
        text.drop_last()
    }
}

fn push_str(out: &mut Vec<char>, s: &str)
    ensures
        final(out)@ == old(out)@ + s@,
{
    let chars = chars_of(s);
    let mut i: usize = 0;
    while i < chars.len()
        invariant
            chars@ == s@,
            i <= chars@.len(),
            out@ == old(out)@ + chars@.take(i as int),
        decreases chars@.len() - i,
    {
        out.push(chars[i]);
        i = i + 1;
        assert(out@ =~= old(out)@ + chars@.take(i as int));
    }
    assert(chars@.take(chars@.len() as int) =~= chars@);
}

fn push_amount(out: &mut Vec<char>, n: i64, unit: &str)
    ensures
        final(out)@ == old(out)@ + amount(n as int, unit@),
{
    let digits = format_i64(n);
    push_str(out, digits.as_str());
    out.push(' ');
    push_str(out, unit);
    out.push(' ');
    assert(out@ =~= old(out)@ + amount(n as int, unit@));
}

/// Writes a ban's duration in words, as the `/ban` command reports it.
pub fn human_readable_duration(minutes: i64) -> (res: String)
    requires
        -MAX_MINUTES <= minutes <= MAX_MINUTES,
    ensures
        res@ == duration_text(minutes as int),
{
    let mut out: Vec<char> = Vec::new();
    if minutes < 0 {
        push_str(&mut out, &format_i64(minutes).as_str());
        push_str(&mut out, " minutes");
        return string_from_chars(&out);
    }
    let w = minutes / 10080;
    let d = (minutes % 10080) / 1440;
    let h = (minutes % 1440) / 60;
    let m = minutes % 60;
    if w > 0 {
        push_amount(&mut out, w, "weeks");
    }
    let ghost a = out@;
    if d > 0 {
        push_amount(&mut out, d, "days");
    }
    let ghost b = out@;
    if h > 0 {
        push_amount(&mut out, h, "hours");
    }
    let ghost c = out@;
    if m > 0 || minutes == 0 {
        push_amount(&mut out, m, "minutes");
    }
    proof {
        let text = (if w > 0 {
            amount(w as int, "weeks"@)
        } else {
            Seq::empty()
        }) + (if d > 0 {
            amount(d as int, "days"@)
        } else {
            Seq::empty()
        }) + (if h > 0 {
            amount(h as int, "hours"@)
        } else {
            Seq::empty()
        }) + (if m > 0 || minutes == 0 {
            amount(m as int, "minutes"@)
        } else {
            Seq::empty()
        });
        assert(out@ =~= text);
    }
    // the trailing space
    out.pop();
    string_from_chars(&out)
}

// Tab completion //
////////////////////

/// The names that start with what the player typed, in their order.
pub open spec fn completions(names: Seq<String>, prefix: Seq<char>) -> Seq<Seq<char>>
    decreases names.len(),
{
    if names.len() == 0 {
        Seq::empty()
    } else {
        let rest = completions(names.drop_last(), prefix);
        let n = names.last()@;
        if prefix.len() <= n.len() && n.subrange(0, prefix.len() as int) == prefix {
            rest.push(n)
        } else {
            rest
        }
    }
}

/// Offers the names that start with the last word typed.
pub fn complete(names: &Vec<String>, prefix: &str) -> (res: Vec<String>)
    ensures
        res@.len() == completions(names@, prefix@).len(),
        forall|i: int|
            0 <= i < res@.len() ==> (#[trigger] res@[i])@ == completions(names@, prefix@)[i],
{
    let mut res: Vec<String> = Vec::new();
    let mut i: usize = 0;
    while i < names.len()
        invariant
            i <= names@.len(),
            res@.len() == completions(names@.take(i as int), prefix@).len(),
            forall|j: int|
                0 <= j < res@.len() ==> (#[trigger] res@[j])@ == completions(
                    names@.take(i as int),
                    prefix@,
                )[j],
        decreases names@.len() - i,
    {
        assert(names@.take(i + 1).drop_last() =~= names@.take(i as int));
        if starts_with(names[i].as_str(), prefix) {
            res.push(names[i].clone());
        }
        i = i + 1;
    }
    assert(names@.take(names@.len() as int) =~= names@);
    res
}

/// What tab completion works on: the index of the last word after the
/// command, where it starts in characters, and the word.
pub open spec fn last_word(text: Seq<char>) -> Option<(nat, nat, Seq<char>)> {
    let words = split_on(text, ' ');
    if words.len() < 2 {
        None
    } else {
        let k = (words.len() - 1) as nat;
        let last = words[k as int];
        Some(((k - 1) as nat, (text.len() - last.len()) as nat, last))
    }
}

proof fn lemma_split_on_lengths(s: Seq<char>, sep: char)
    ensures
        split_on(s, sep).len() >= 1,
        split_on(s, sep).last().len() <= s.len(),
    decreases s.len(),
{
    if s.len() > 0 {
        lemma_split_on_lengths(s.drop_last(), sep);
    }
}

/// Finds the last word of a command being typed; `None` when only the command is there.
pub fn last_word_of(text: &str) -> (res: Option<(usize, usize, String)>)
    ensures
        match res {
            Some((i, start, word)) => last_word(text@) == Some((i as nat, start as nat, word@)),
            None => last_word(text@) is None,
        },
{
    let words = split_str(text, ' ');
    if words.len() < 2 {
        return None;
    }
    let k = words.len() - 1;
    proof {
        lemma_split_on_lengths(text@, ' ');
    }
    let last = words[k].clone();
    let n = text.unicode_len();
    let l = last.as_str().unicode_len();
    Some((k - 1, n - l, last))
}

/// The names among `names` that start with `prefix`, in their order.
pub open spec fn filter_prefixed(names: Seq<Seq<char>>, prefix: Seq<char>) -> Seq<Seq<char>>
    decreases names.len(),
{
    if names.len() == 0 {
        Seq::empty()
    } else {
        let rest = filter_prefixed(names.drop_last(), prefix);
        let n = names.last();
        if prefix.len() <= n.len() && n.subrange(0, prefix.len() as int) == prefix {
            rest.push(n)
        } else {
            rest
        }
    }
}

/// The names of the permissions, as `/setperm` takes them.
pub open spec fn permission_names() -> Seq<Seq<char>> {
    seq!["owner"@, "admin"@, "edit_lobby"@, "ban_usernames"@, "ban_ips"@]
}

/// What tab completion of a command answers.
#[derive(Debug, PartialEq, Eq)]
pub enum TabOutcome {
    /// not a moderation command: the world completes it
    NotHandled,
    /// nothing is offered
    Nothing,
    /// these words may replace the characters from `start` to `end`
    Matches { start: usize, end: usize, matches: Vec<String> },
}

/// The words offered, as their characters.
pub open spec fn offered(v: Seq<String>) -> Seq<Seq<char>> {
    Seq::new(v.len(), |i: int| v[i]@)
}

/// What completing `text` answers a player with permissions `p`, where
/// `usernames` are the names of all players the server knows.
pub open spec fn tab_outcome_is(
    text: Seq<char>,
    p: Permissions,
    usernames: Seq<String>,
    res: TabOutcome,
) -> bool {
    let command = split_on(text, ' ')[0];
    match last_word(text) {
        None => res is Nothing,
        Some((index, start, word)) => {
            let answer = |names: Seq<Seq<char>>|
                res matches TabOutcome::Matches { start: s, end: e, matches } && s == start && e
                    == text.len() && offered(matches@) == names;
            if command == "/ban"@ || command == "/unban"@ || command == "/perms"@ {
                if p.ban_usernames && index == 0 {
                    answer(completions(usernames, word))
                } else {
                    res is Nothing
                }
            } else if command == "/setperm"@ {
                if p.admin && index == 0 {
                    answer(completions(usernames, word))
                } else if p.admin && index == 1 {
                    answer(filter_prefixed(permission_names(), word))
                } else {
                    res is Nothing
                }
            } else {
                res is NotHandled
            }
        },
    }
}

fn offer_permissions(prefix: &str) -> (res: Vec<String>)
    ensures
        offered(res@) == filter_prefixed(permission_names(), prefix@),
{
    let mut res: Vec<String> = Vec::new();
    let names = ["owner", "admin", "edit_lobby", "ban_usernames", "ban_ips"];
    let ghost all = permission_names();
    let mut i: usize = 0;
    while i < 5
        invariant
            all == permission_names(),
            all.len() == 5,
            names@.len() == 5,
            forall|j: int| 0 <= j < 5 ==> (#[trigger] names@[j])@ == all[j],
            i <= 5,
            offered(res@) == filter_prefixed(all.take(i as int), prefix@),
        decreases 5 - i,
    {
        let ghost before = res@;
        assert(all.take(i + 1).drop_last() =~= all.take(i as int));
        assert(all.take(i + 1).last() == all[i as int]);
        if starts_with(names[i], prefix) {
            res.push(String::from_str(names[i]));
            assert(offered(res@) =~= offered(before).push(all[i as int]));
        } else {
            assert(offered(res@) =~= offered(before));
        }
        i = i + 1;
        assert(offered(res@) =~= filter_prefixed(all.take(i as int), prefix@));
    }
    assert(all.take(5) =~= all);
    res
}

/// Tab completion of the moderation commands: usernames for the player
/// argument, permission names for `/setperm`'s second one.
pub fn tab_complete(text: &str, p: &Permissions, usernames: &Vec<String>) -> (res: TabOutcome)
    ensures
        tab_outcome_is(text@, *p, usernames@, res),
{
    let words = split_str(text, ' ');
    proof {
        crate::text::lemma_split_on_nonempty(text@, ' ');
        lemma_split_on_lengths(text@, ' ');
    }
    let command = words[0].as_str();
    let (index, start, word) = match last_word_of(text) {
        None => {
            return TabOutcome::Nothing;
        },
        Some(w) => w,
    };
    let end = text.unicode_len();
    if str_eq(command, "/ban") || str_eq(command, "/unban") || str_eq(command, "/perms") {
        if p.ban_usernames && index == 0 {
            let matches = complete(usernames, word.as_str());
            assert(offered(matches@) =~= completions(usernames@, word@));
            return TabOutcome::Matches { start, end, matches };
        }
        return TabOutcome::Nothing;
    } else if str_eq(command, "/setperm") {
        if p.admin && index == 0 {
            let matches = complete(usernames, word.as_str());
            assert(offered(matches@) =~= completions(usernames@, word@));
            return TabOutcome::Matches { start, end, matches };
        } else if p.admin && index == 1 {
            let matches = offer_permissions(word.as_str());
            return TabOutcome::Matches { start, end, matches };
        }
        return TabOutcome::Nothing;
    }
    TabOutcome::NotHandled
}

/// The weeks, days, hours and minutes of a ban's duration add up to it, each
/// below the next unit.
pub proof fn lemma_duration_parts(minutes: int)
    requires
        minutes >= 0,
    ensures
        ({
            let w = minutes / 10080;
            let d = (minutes % 10080) / 1440;
            let h = (minutes % 1440) / 60;
            let m = minutes % 60;
            &&& w * 10080 + d * 1440 + h * 60 + m == minutes
            &&& 0 <= d < 7
            &&& 0 <= h < 24
            &&& 0 <= m < 60
        }),
{
    let r = minutes % 10080;
    assert(minutes == (minutes / 10080) * 10080 + r) by (nonlinear_arith)
        requires
            r == minutes % 10080,
    ;
    assert(minutes % 1440 == r % 1440) by (nonlinear_arith)
        requires
            r == minutes % 10080,
            minutes >= 0,
    ;
    assert(r == (r / 1440) * 1440 + r % 1440) by (nonlinear_arith);
    assert(r % 1440 == ((r % 1440) / 60) * 60 + minutes % 60) by (nonlinear_arith)
        requires
            minutes % 1440 == r % 1440,
            minutes >= 0,
            r >= 0,
    ;
    assert(r / 1440 < 7) by (nonlinear_arith)
        requires
            0 <= r < 10080,
    ;
    assert((r % 1440) / 60 < 24) by (nonlinear_arith)
        requires
            0 <= r % 1440 < 1440,
    ;
}

} // verus!
