//! What the server keeps of each player (permissions and ban), the
//! moderation commands that change it, and who may log in.
use crate::commands::{
    human_readable_duration, duration_text, may_set, parse_bool, permission_named,
    set_permission, spec_handles_command, spec_may_set, spec_parse_bool, spec_permission_named,
    handles_command, Permission, Permissions, SetPermError, MAX_MINUTES,
};
use crate::text::{chars_of, parse_i64, parse_i64_spec, split_on, split_str, str_eq, string_from_chars};
use vstd::prelude::*;

verus! {

/// A ban: until when (milliseconds since the Unix epoch), why, and who issued
/// it (`None`: the server itself).
#[derive(Clone, Debug, PartialEq, Eq)]
pub struct Ban {
    pub until: i64,
    pub reason: String,
    pub issuer: Option<String>,
}

/// What the server keeps of a player.
#[derive(Clone, Debug, PartialEq, Eq)]
pub struct PlayerRecord {
    pub permissions: Permissions,
    pub banned: Option<Ban>,
}

/// The contents of a ban.
pub struct BanView {
    pub until: i64,
    pub reason: Seq<char>,
    pub issuer: Option<Seq<char>>,
}

/// The contents of a player's record.
pub struct RecordView {
    pub permissions: Permissions,
    pub banned: Option<BanView>,
}

pub open spec fn ban_view(b: Ban) -> BanView {
    BanView {
        until: b.until,
        reason: b.reason@,
        issuer: match b.issuer {
            Some(i) => Some(i@),
            None => None,
        },
    }
}

pub open spec fn record_view(r: PlayerRecord) -> RecordView {
    RecordView {
        permissions: r.permissions,
        banned: match r.banned {
            Some(b) => Some(ban_view(b)),
            None => None,
        },
    }
}

/// The records of all players, by username, as their contents.
pub open spec fn records_view(r: Seq<(String, PlayerRecord)>) -> Seq<(Seq<char>, RecordView)> {
    Seq::new(r.len(), |i: int| (r[i].0@, record_view(r[i].1)))
}

/// The position of the record of `name`: the first with that username.
pub open spec fn record_of(r: Seq<(Seq<char>, RecordView)>, name: Seq<char>) -> Option<int>
    decreases r.len(),
{
    if r.len() == 0 {
        None
    } else if r[0].0 == name {
        Some(0)
    } else {
        match record_of(r.skip(1), name) {
            Some(i) => Some(i + 1),
            None => None,
        }
    }
}

/// The record found for a name has that name.
pub proof fn lemma_record_of_some(r: Seq<(Seq<char>, RecordView)>, name: Seq<char>)
    ensures
        record_of(r, name) matches Some(i) ==> 0 <= i < r.len() && r[i].0 == name,
    decreases r.len(),
{
    if r.len() > 0 && r[0].0 != name {
        lemma_record_of_some(r.skip(1), name);
    }
}

proof fn lemma_record_of(r: Seq<(Seq<char>, RecordView)>, name: Seq<char>, k: int)
    requires
        0 <= k <= r.len(),
        forall|j: int| 0 <= j < k ==> (#[trigger] r[j]).0 != name,
    ensures
        k < r.len() && r[k].0 == name ==> record_of(r, name) == Some(k),
        k == r.len() ==> record_of(r, name) is None,
    decreases k,
{
    if k > 0 {
        let rest = r.skip(1);
        assert forall|j: int| 0 <= j < k - 1 implies (#[trigger] rest[j]).0 != name by {
            assert(rest[j] == r[j + 1]);
        }
        lemma_record_of(rest, name, k - 1);
        assert(r[0].0 != name);
    }
}

/// Finds the record of a player.
pub fn find_record(records: &Vec<(String, PlayerRecord)>, name: &str) -> (res: Option<usize>)
    ensures
        match res {
            Some(i) => i < records@.len() && record_of(records_view(records@), name@) == Some(
                i as int,
            ),
            None => record_of(records_view(records@), name@) is None,
        },
{
    let ghost v = records_view(records@);
    let mut i: usize = 0;
    while i < records.len()
        invariant
            v == records_view(records@),
            i <= records@.len(),
            forall|j: int| 0 <= j < i ==> (#[trigger] v[j]).0 != name@,
        decreases records@.len() - i,
    {
        if str_eq(records[i].0.as_str(), name) {
            proof {
                lemma_record_of(v, name@, i as int);
            }
            return Some(i);
        }
        i = i + 1;
    }
    proof {
        lemma_record_of(v, name@, i as int);
    }
    None
}

/// What a moderation command comes to.
#[derive(Debug, PartialEq, Eq)]
pub enum CommandOutcome {
    /// not a moderation command that the player may use: the world handles it
    NotHandled,
    /// tell the player this; nothing changed
    Say(String),
    /// the records changed (and are to be saved); tell the player this
    Saved(String),
    /// ban this IP address, written as the player wrote it
    BanIp(String),
    /// lift the ban of this IP address
    UnbanIp(String),
    /// the duration of a ban is not a number: "Couldn't parse duration"
    BadDuration(String),
    /// ban this player for this many minutes, for this reason
    Ban { username: String, minutes: i64, reason: String },
}

/// The contents of a [`CommandOutcome`].
pub enum OutcomeView {
    NotHandled,
    Say(Seq<char>),
    Saved(Seq<char>),
    BanIp(Seq<char>),
    UnbanIp(Seq<char>),
    BadDuration(Seq<char>),
    Ban { username: Seq<char>, minutes: i64, reason: Seq<char> },
}

impl CommandOutcome {
    pub open spec fn view(&self) -> OutcomeView {
        match self {
            CommandOutcome::NotHandled => OutcomeView::NotHandled,
            CommandOutcome::Say(s) => OutcomeView::Say(s@),
            CommandOutcome::Saved(s) => OutcomeView::Saved(s@),
            CommandOutcome::BanIp(s) => OutcomeView::BanIp(s@),
            CommandOutcome::UnbanIp(s) => OutcomeView::UnbanIp(s@),
            CommandOutcome::BadDuration(s) => OutcomeView::BadDuration(s@),
            CommandOutcome::Ban { username, minutes, reason } => OutcomeView::Ban {
                username: username@,
                minutes: *minutes,
                reason: reason@,
            },
        }
    }
}

pub open spec fn bool_text(b: bool) -> Seq<char> {
    if b {
        "true"@
    } else {
        "false"@
    }
}

/// A field of a struct as `{:#?}` writes it, on a line of its own.
pub open spec fn field_line(name: Seq<char>, b: bool) -> Seq<char> {
    "    "@ + name + ": "@ + bool_text(b) + ",\n"@
}

/// Permissions as `{:#?}` writes them.
pub open spec fn permissions_text(p: Permissions) -> Seq<char> {
    "Permissions {\n"@ + field_line("owner"@, p.owner) + field_line("admin"@, p.admin)
        + field_line("edit_lobby"@, p.edit_lobby) + field_line("ban_usernames"@, p.ban_usernames)
        + field_line("ban_ips"@, p.ban_ips) + "}"@
}

/// The answer to `/perms`.
pub open spec fn perms_reply(username: Seq<char>, p: Permissions) -> Seq<char> {
    "§l§7§nPermissions of "@ + username + ":\n§r§o§7"@ + permissions_text(p)
}

pub open spec fn no_such_player(username: Seq<char>) -> Seq<char> {
    "§6No such player \""@ + username + "\"."@
}

/// Words joined by single spaces.
pub open spec fn join_words(ws: Seq<Seq<char>>) -> Seq<char>
    decreases ws.len(),
{
    if ws.len() == 0 {
        Seq::empty()
    } else if ws.len() == 1 {
        ws[0]
    } else {
        join_words(ws.drop_last()) + " "@ + ws.last()
    }
}

/// The `i`th word of a command, if it has one.
pub open spec fn word(ws: Seq<Seq<char>>, i: int) -> Option<Seq<char>> {
    if i < ws.len() {
        Some(ws[i])
    } else {
        None
    }
}

/// A permission set to a value; the others stay.
pub open spec fn with_permission(p: Permissions, perm: Permission, v: bool) -> Permissions {
    match perm {
        Permission::Owner => Permissions { owner: v, ..p },
        Permission::Admin => Permissions { admin: v, ..p },
        Permission::EditLobby => Permissions { edit_lobby: v, ..p },
        Permission::BanUsernames => Permissions { ban_usernames: v, ..p },
        Permission::BanIps => Permissions { ban_ips: v, ..p },
    }
}

pub open spec fn setperm_usage() -> Seq<char> {
    "§6Usage: /setperm §e<username> <permission> <true|false>"@
}

pub open spec fn ban_usage() -> Seq<char> {
    "§6Usage: /ban §e<username> <duration in minutes> <reason>"@
}

/// `/setperm <username> <permission> <true|false>`, by a player with
/// permissions `p`.
pub open spec fn setperm_outcome(
    ws: Seq<Seq<char>>,
    p: Permissions,
    r: Seq<(Seq<char>, RecordView)>,
) -> (OutcomeView, Seq<(Seq<char>, RecordView)>) {
    match word(ws, 1) {
        None => (OutcomeView::Say(setperm_usage()), r),
        Some(username) => match record_of(r, username) {
            None => (OutcomeView::Say(no_such_player(username)), r),
            Some(i) => match word(ws, 2) {
                None => (OutcomeView::Say(setperm_usage()), r),
                Some(name) => match spec_permission_named(name) {
                    None => (OutcomeView::Say("§6No such permission \""@ + name + "\"."@), r),
                    Some(perm) => match spec_may_set(p, perm) {
                        Err(SetPermError::OnlyOwners) => (
                            OutcomeView::Say(
                                if perm == Permission::Owner {
                                    "§6Only owners can set the owner permission."@
                                } else {
                                    "§6Only owners can set the admin permission."@
                                },
                            ),
                            r,
                        ),
                        Err(SetPermError::OnlyAdmins) => (
                            OutcomeView::Say("§6Only admins can set permissions."@),
                            r,
                        ),
                        Ok(()) => match word(ws, 3) {
                            None => (OutcomeView::Say(setperm_usage()), r),
                            Some(value) => match spec_parse_bool(value) {
                                None => (
                                    OutcomeView::Say(
                                        "§6Couldn't parse value: provided string was not `true` or `false`"@,
                                    ),
                                    r,
                                ),
                                Some(v) => (
                                    OutcomeView::Saved("§7Permission set."@),
                                    r.update(
                                        i,
                                        (
                                            r[i].0,
                                            RecordView {
                                                permissions: with_permission(
                                                    r[i].1.permissions,
                                                    perm,
                                                    v,
                                                ),
                                                ..r[i].1
                                            },
                                        ),
                                    ),
                                ),
                            },
                        },
                    },
                },
            },
        },
    }
}

/// `/ban <username> <minutes> <reason...>`: the ban itself is made by
/// [`apply_ban`], once the time it ends is known.
pub open spec fn ban_outcome(ws: Seq<Seq<char>>, r: Seq<(Seq<char>, RecordView)>) -> OutcomeView {
    match (word(ws, 1), word(ws, 2)) {
        (Some(username), Some(duration)) => match parse_i64_spec(duration) {
            None => OutcomeView::BadDuration(duration),
            Some(minutes) => if ws.len() < 4 {
                OutcomeView::Say(ban_usage())
            } else {
                match record_of(r, username) {
                    None => OutcomeView::Say(no_such_player(username)),
                    Some(_) => OutcomeView::Ban {
                        username,
                        minutes,
                        reason: join_words(ws.skip(3)),
                    },
                }
            },
        },
        _ => OutcomeView::Say(ban_usage()),
    }
}

/// What a chat message starting with `/` from player `issuer` comes to, and
/// the records afterwards.
pub open spec fn command_outcome(
    message: Seq<char>,
    issuer: Seq<char>,
    r: Seq<(Seq<char>, RecordView)>,
) -> (OutcomeView, Seq<(Seq<char>, RecordView)>) {
    let ws = split_on(message, ' ');
    let command = ws[0];
    let p = r[record_of(r, issuer)->0].1.permissions;
    if !spec_handles_command(command, p) {
        (OutcomeView::NotHandled, r)
    } else if command == "/banip"@ || command == "/unbanip"@ {
        match word(ws, 1) {
            None => (OutcomeView::Say("§6Usage: /banip §e<ip address>"@), r),
            Some(ip) => (
                if command == "/banip"@ {
                    OutcomeView::BanIp(ip)
                } else {
                    OutcomeView::UnbanIp(ip)
                },
                r,
            ),
        }
    } else if command == "/setperm"@ {
        setperm_outcome(ws, p, r)
    } else if command == "/perms"@ {
        match word(ws, 1) {
            Some(username) => match record_of(r, username) {
                None => (OutcomeView::Say(no_such_player(username)), r),
                Some(i) => (OutcomeView::Say(perms_reply(username, r[i].1.permissions)), r),
            },
            None => (OutcomeView::Say(perms_reply(issuer, p)), r),
        }
    } else if command == "/ban"@ {
        (ban_outcome(ws, r), r)
    } else {
        // "/unban"
        match word(ws, 1) {
            None => (OutcomeView::Say("§6Usage: /unban §e<username>"@), r),
            Some(username) => match record_of(r, username) {
                None => (OutcomeView::Say(no_such_player(username)), r),
                Some(i) => (
                    OutcomeView::Saved("§7Player "@ + username + " unbanned."@),
                    r.update(i, (r[i].0, RecordView { banned: None, ..r[i].1 })),
                ),
            },
        }
    }
}

fn push_str(out: &mut Vec<char>, s: &str)
    ensures
        final(out)@ == old(out)@ + s@,
{
    let chars = chars_of(s);
    let mut i: usize = 0;
    while i < chars.len()
        invariant
            chars@ == s@,
            i <= chars@.len(),
            out@ == old(out)@ + chars@.take(i as int),
        decreases chars@.len() - i,
    {
        out.push(chars[i]);
        i = i + 1;
        assert(out@ =~= old(out)@ + chars@.take(i as int));
    }
    assert(chars@.take(chars@.len() as int) =~= chars@);
}

fn concat3(a: &str, b: &str, c: &str) -> (res: String)
    ensures
        res@ == a@ + b@ + c@,
{
    let mut out: Vec<char> = Vec::new();
    push_str(&mut out, a);
    push_str(&mut out, b);
    push_str(&mut out, c);
    assert(out@ =~= a@ + b@ + c@);
    string_from_chars(&out)
}

fn push_bool(out: &mut Vec<char>, b: bool)
    ensures
        final(out)@ == old(out)@ + bool_text(b),
{
    if b {
        push_str(out, "true");
    } else {
        push_str(out, "false");
    }
}

fn push_field(out: &mut Vec<char>, name: &str, b: bool)
    ensures
        final(out)@ == old(out)@ + field_line(name@, b),
{
    push_str(out, "    ");
    push_str(out, name);
    push_str(out, ": ");
    push_bool(out, b);
    push_str(out, ",\n");
    assert(out@ =~= old(out)@ + field_line(name@, b));
}

fn push_permissions(out: &mut Vec<char>, p: &Permissions)
    ensures
        final(out)@ == old(out)@ + permissions_text(*p),
{
    push_str(out, "Permissions {\n");
    let ghost s0 = out@;
    push_field(out, "owner", p.owner);
    push_field(out, "admin", p.admin);
    push_field(out, "edit_lobby", p.edit_lobby);
    push_field(out, "ban_usernames", p.ban_usernames);
    push_field(out, "ban_ips", p.ban_ips);
    push_str(out, "}");
    assert(out@ =~= old(out)@ + permissions_text(*p));
}

fn perms_reply_of(username: &str, p: &Permissions) -> (res: String)
    ensures
        res@ == perms_reply(username@, *p),
{
    let mut out: Vec<char> = Vec::new();
    push_str(&mut out, "§l§7§nPermissions of ");
    push_str(&mut out, username);
    push_str(&mut out, ":\n§r§o§7");
    push_permissions(&mut out, p);
    assert(out@ =~= perms_reply(username@, *p));
    string_from_chars(&out)
}

fn join_from(words: &Vec<String>, start: usize) -> (res: String)
    requires
        start < words@.len(),
    ensures
        res@ == join_words(Seq::new(words@.len(), |i: int| words@[i]@).skip(start as int)),
{
    let ghost ws = Seq::new(words@.len(), |i: int| words@[i]@);
    let n = words.len();
    let mut out: Vec<char> = Vec::new();
    push_str(&mut out, words[start].as_str());
    let mut k: usize = start + 1;
    assert(ws.skip(start as int).take(1) =~= seq![ws[start as int]]);
    while k < words.len()
        invariant
            ws == Seq::new(words@.len(), |i: int| words@[i]@),
            start < k <= words@.len(),
            out@ == join_words(ws.skip(start as int).take(k - start)),
        decreases words@.len() - k,
    {
        push_str(&mut out, " ");
        push_str(&mut out, words[k].as_str());
        proof {
            let t = ws.skip(start as int).take(k + 1 - start);
            assert(t.drop_last() =~= ws.skip(start as int).take(k - start));
            assert(t.last() == ws[k as int]);
            assert(out@ =~= join_words(t));
        }
        k = k + 1;
    }
    assert(ws.skip(start as int).take(words@.len() - start) =~= ws.skip(start as int));
    string_from_chars(&out)
}

/// Runs a moderation command (a chat message starting with `/`) of player
/// `issuer`, who must have a record.
pub fn run_command(
    message: &str,
    issuer: &str,
    records: &mut Vec<(String, PlayerRecord)>,
) -> (res: CommandOutcome)
    requires
        record_of(records_view(old(records)@), issuer@) is Some,
    ensures
        (res@, records_view(final(records)@)) == command_outcome(
            message@,
            issuer@,
            records_view(old(records)@),
        ),
{
    let ghost r = records_view(records@);
    let words = split_str(message, ' ');
    let ghost ws = split_on(message@, ' ');
    proof {
        crate::text::lemma_split_on_nonempty(message@, ' ');
    }
    let me = find_record(records, issuer).unwrap();
    let p = records[me].1.permissions;
    assert(Seq::new(words@.len(), |i: int| words@[i]@) =~= ws);
    let command = words[0].as_str();
    if !handles_command(command, &p) {
        return CommandOutcome::NotHandled;
    }
    if str_eq(command, "/banip") || str_eq(command, "/unbanip") {
        if words.len() < 2 {
            return CommandOutcome::Say(String::from_str("§6Usage: /banip §e<ip address>"));
        }
        let ip = words[1].clone();
        if str_eq(command, "/banip") {
            return CommandOutcome::BanIp(ip);
        } else {
            return CommandOutcome::UnbanIp(ip);
        }
    }
    if str_eq(command, "/setperm") {
        return run_setperm(&words, &p, records);
    }
    if str_eq(command, "/perms") {
        return run_perms(&words, issuer, &p, records);
    }
    if str_eq(command, "/ban") {
        return run_ban(&words, records);
    }
    // "/unban"
    run_unban(&words, records)
}

fn run_perms(
    words: &Vec<String>,
    issuer: &str,
    p: &Permissions,
    records: &Vec<(String, PlayerRecord)>,
) -> (res: CommandOutcome)
    ensures
        res@ == (match word(Seq::new(words@.len(), |i: int| words@[i]@), 1) {
            Some(username) => match record_of(records_view(records@), username) {
                None => OutcomeView::Say(no_such_player(username)),
                Some(i) => OutcomeView::Say(
                    perms_reply(username, records_view(records@)[i].1.permissions),
                ),
            },
            None => OutcomeView::Say(perms_reply(issuer@, *p)),
        }),
{
    if words.len() >= 2 {
        return match find_record(records, words[1].as_str()) {
            None => CommandOutcome::Say(concat3("§6No such player \"", words[1].as_str(), "\".")),
            Some(i) => CommandOutcome::Say(
                perms_reply_of(words[1].as_str(), &records[i].1.permissions),
            ),
        };
    }
    CommandOutcome::Say(perms_reply_of(issuer, p))
}

fn run_unban(words: &Vec<String>, records: &mut Vec<(String, PlayerRecord)>) -> (res:
    CommandOutcome)
    ensures
        ({
            let ws = Seq::new(words@.len(), |i: int| words@[i]@);
            let r = records_view(old(records)@);
            (res@, records_view(final(records)@)) == match word(ws, 1) {
                None => (OutcomeView::Say("§6Usage: /unban §e<username>"@), r),
                Some(username) => match record_of(r, username) {
                    None => (OutcomeView::Say(no_such_player(username)), r),
                    Some(i) => (
                        OutcomeView::Saved("§7Player "@ + username + " unbanned."@),
                        r.update(i, (r[i].0, RecordView { banned: None, ..r[i].1 })),
                    ),
                },
            }
        }),
{
    let ghost r = records_view(records@);
    if words.len() < 2 {
        return CommandOutcome::Say(String::from_str("§6Usage: /unban §e<username>"));
    }
    match find_record(records, words[1].as_str()) {
        None => CommandOutcome::Say(concat3("§6No such player \"", words[1].as_str(), "\".")),
        Some(i) => {
            let (name, mut rec) = records.remove(i);
            rec.banned = None;
            records.insert(i, (name, rec));
            proof {
                assert(records_view(records@) =~= r.update(
                    i as int,
                    (r[i as int].0, RecordView { banned: None, ..r[i as int].1 }),
                ));
            }
            CommandOutcome::Saved(concat3("§7Player ", words[1].as_str(), " unbanned."))
        },
    }
}

fn run_setperm(
    words: &Vec<String>,
    p: &Permissions,
    records: &mut Vec<(String, PlayerRecord)>,
) -> (res: CommandOutcome)
    requires
        words@.len() >= 1,
    ensures
        (res@, records_view(final(records)@)) == setperm_outcome(
            Seq::new(words@.len(), |i: int| words@[i]@),
            *p,
            records_view(old(records)@),
        ),
{
    let ghost ws = Seq::new(words@.len(), |i: int| words@[i]@);
    let ghost r = records_view(records@);
    if words.len() < 2 {
        return CommandOutcome::Say(String::from_str(
            "§6Usage: /setperm §e<username> <permission> <true|false>",
        ));
    }
    let i = match find_record(records, words[1].as_str()) {
        None => {
            return CommandOutcome::Say(concat3("§6No such player \"", words[1].as_str(), "\"."));
        },
        Some(i) => i,
    };
    if words.len() < 3 {
        return CommandOutcome::Say(String::from_str(
            "§6Usage: /setperm §e<username> <permission> <true|false>",
        ));
    }
    let perm = match permission_named(words[2].as_str()) {
        None => {
            return CommandOutcome::Say(
                concat3("§6No such permission \"", words[2].as_str(), "\"."),
            );
        },
        Some(perm) => perm,
    };
    match may_set(p, perm) {
        Err(SetPermError::OnlyOwners) => {
            return CommandOutcome::Say(
                String::from_str(
                    if perm == Permission::Owner {
                        "§6Only owners can set the owner permission."
                    } else {
                        "§6Only owners can set the admin permission."
                    },
                ),
            );
        },
        Err(SetPermError::OnlyAdmins) => {
            return CommandOutcome::Say(String::from_str("§6Only admins can set permissions."));
        },
        Ok(()) => {},
    }
    if words.len() < 4 {
        return CommandOutcome::Say(String::from_str(
            "§6Usage: /setperm §e<username> <permission> <true|false>",
        ));
    }
    let value = match parse_bool(words[3].as_str()) {
        None => {
            return CommandOutcome::Say(String::from_str(
                "§6Couldn't parse value: provided string was not `true` or `false`",
            ));
        },
        Some(v) => v,
    };
    let (name, mut rec) = records.remove(i);
    set_permission(&mut rec.permissions, perm, value);
    records.insert(i, (name, rec));
    proof {
        let i = i as int;
        assert(rec.permissions == with_permission(r[i].1.permissions, perm, value));
        assert(records_view(records@) =~= r.update(
            i,
            (
                r[i].0,
                RecordView {
                    permissions: with_permission(r[i].1.permissions, perm, value),
                    ..r[i].1
                },
            ),
        ));
    }
    CommandOutcome::Saved(String::from_str("§7Permission set."))
}

fn run_ban(words: &Vec<String>, records: &Vec<(String, PlayerRecord)>) -> (res: CommandOutcome)
    requires
        words@.len() >= 1,
    ensures
        res@ == ban_outcome(Seq::new(words@.len(), |i: int| words@[i]@), records_view(records@)),
{
    let ghost ws = Seq::new(words@.len(), |i: int| words@[i]@);
    if words.len() < 3 {
        return CommandOutcome::Say(String::from_str(
            "§6Usage: /ban §e<username> <duration in minutes> <reason>",
        ));
    }
    let minutes = match parse_i64(words[2].as_str()) {
        None => {
            return CommandOutcome::BadDuration(words[2].clone());
        },
        Some(m) => m,
    };
    if words.len() < 4 {
        return CommandOutcome::Say(String::from_str(
            "§6Usage: /ban §e<username> <duration in minutes> <reason>",
        ));
    }
    match find_record(records, words[1].as_str()) {
        None => CommandOutcome::Say(concat3("§6No such player \"", words[1].as_str(), "\".")),
        Some(_) => CommandOutcome::Ban {
            username: words[1].clone(),
            minutes,
            reason: join_from(words, 3),
        },
    }
}

/// Bans player `username` until `until` (milliseconds since the Unix epoch),
/// for `minutes` minutes, as `issuer` asked: the record of the player gets the
/// ban, and the answer says for how long.
pub fn apply_ban(
    records: &mut Vec<(String, PlayerRecord)>,
    username: &str,
    minutes: i64,
    until: i64,
    reason: &str,
    issuer: &str,
) -> (res: Option<String>)
    requires
        -MAX_MINUTES <= minutes <= MAX_MINUTES,
    ensures
        match record_of(records_view(old(records)@), username@) {
            None => res is None && final(records)@ == old(records)@,
            Some(i) => {
                &&& res matches Some(reply) && reply@ == "§7Player "@ + username@ + " banned for "@
                    + duration_text(minutes as int) + "."@
                &&& records_view(final(records)@) == records_view(old(records)@).update(
                    i,
                    (
                        records_view(old(records)@)[i].0,
                        RecordView {
                            banned: Some(
                                BanView { until, reason: reason@, issuer: Some(issuer@) },
                            ),
                            ..records_view(old(records)@)[i].1
                        },
                    ),
                )
            },
        },
{
    let ghost r = records_view(records@);
    match find_record(records, username) {
        None => None,
        Some(i) => {
            let (name, mut rec) = records.remove(i);
            rec.banned = Some(
                Ban {
                    until,
                    reason: String::from_str(reason),
                    issuer: Some(String::from_str(issuer)),
                },
            );
            records.insert(i, (name, rec));
            proof {
                assert(records_view(records@) =~= r.update(
                    i as int,
                    (
                        r[i as int].0,
                        RecordView {
                            banned: Some(BanView { until, reason: reason@, issuer: Some(issuer@) }),
                            ..r[i as int].1
                        },
                    ),
                ));
            }
            let duration = human_readable_duration(minutes);
            let mut out: Vec<char> = Vec::new();
            push_str(&mut out, "§7Player ");
            push_str(&mut out, username);
            push_str(&mut out, " banned for ");
            push_str(&mut out, duration.as_str());
            push_str(&mut out, ".");
            assert(out@ =~= "§7Player "@ + username@ + " banned for "@ + duration_text(
                minutes as int,
            ) + "."@);
            Some(string_from_chars(&out))
        },
    }
}

// Logging in //
////////////////

/// The protocol version of Minecraft 1.16.5, the one this server speaks.
pub const PROTOCOL_VERSION: i32 = 754;

/// Whether the server speaks a client's protocol version.
pub fn protocol_supported(protocol: i32) -> (res: bool)
    ensures
        res == (protocol == PROTOCOL_VERSION),
{
    protocol == PROTOCOL_VERSION
}

/// What is answered to a player who asks to log in.
#[derive(Debug, PartialEq, Eq)]
pub enum LoginDecision {
    /// the player is banned until then, for this reason, by this player
    /// (`None`: the server); the connection ends
    Banned { until: i64, reason: String, issuer: Option<String> },
    /// the client's version is not supported; the connection ends
    Unsupported,
    /// "Someone is already playing with this username!"; the connection ends
    NameTaken,
    /// the player comes in
    Accept,
}

/// The ban of a player that has not ended at time `now`, if there is one.
pub open spec fn active_ban(r: Seq<(Seq<char>, RecordView)>, name: Seq<char>, now: i64) -> Option<
    BanView,
> {
    match record_of(r, name) {
        Some(i) => match r[i].1.banned {
            Some(b) => if now < b.until {
                Some(b)
            } else {
                None
            },
            None => None,
        },
        None => None,
    }
}

/// Changing a record but not its name finds the same records by name.
proof fn lemma_record_of_update(
    r: Seq<(Seq<char>, RecordView)>,
    i: int,
    v: (Seq<char>, RecordView),
    name: Seq<char>,
)
    requires
        0 <= i < r.len(),
        v.0 == r[i].0,
    ensures
        record_of(r.update(i, v), name) == record_of(r, name),
    decreases r.len(),
{
    let u = r.update(i, v);
    if r.len() > 0 && r[0].0 != name && i > 0 {
        assert(u.skip(1) =~= r.skip(1).update(i - 1, v));
        lemma_record_of_update(r.skip(1), i - 1, v, name);
    } else if r.len() > 0 && r[0].0 != name {
        assert(u.skip(1) =~= r.skip(1));
    }
}

/// A ban that `apply_ban` makes keeps the player out until it ends: logging
/// in before then is refused with that ban.
pub proof fn lemma_ban_keeps_out(
    r: Seq<(Seq<char>, RecordView)>,
    username: Seq<char>,
    until: i64,
    reason: Seq<char>,
    issuer: Seq<char>,
    now: i64,
)
    requires
        record_of(r, username) is Some,
        now < until,
    ensures
        ({
            let i = record_of(r, username)->0;
            let after = r.update(
                i,
                (r[i].0, RecordView { banned: Some(BanView { until, reason, issuer: Some(issuer) }), ..r[i].1 }),
            );
            active_ban(after, username, now) == Some(BanView { until, reason, issuer: Some(issuer) })
        }),
{
    lemma_record_of_some(r, username);
    let i = record_of(r, username)->0;
    let v = (r[i].0, RecordView { banned: Some(BanView { until, reason, issuer: Some(issuer) }), ..r[i].1 });
    lemma_record_of_update(r, i, v, username);
}

/// After `/unban`, the player may log in again as far as bans go.
pub proof fn lemma_unban_lets_in(r: Seq<(Seq<char>, RecordView)>, username: Seq<char>, now: i64)
    requires
        record_of(r, username) is Some,
    ensures
        ({
            let i = record_of(r, username)->0;
            let after = r.update(i, (r[i].0, RecordView { banned: None, ..r[i].1 }));
            active_ban(after, username, now) is None
        }),
{
    lemma_record_of_some(r, username);
    let i = record_of(r, username)->0;
    lemma_record_of_update(r, i, (r[i].0, RecordView { banned: None, ..r[i].1 }), username);
}

/// Whether a name is among the names of the players online.
pub open spec fn online_has(online: Seq<String>, name: Seq<char>) -> bool {
    exists|i: int| 0 <= i < online.len() && (#[trigger] online[i])@ == name
}

/// Checks a player who logs in at time `now` (milliseconds since the Unix
/// epoch): first a ban that has not ended, then the client's version, then
/// whether someone online already has the name.
#[verifier::loop_isolation(false)]
pub fn login_decision(
    username: &str,
    protocol: i32,
    now: i64,
    records: &Vec<(String, PlayerRecord)>,
    online: &Vec<String>,
) -> (res: LoginDecision)
    ensures
        ({
            match active_ban(records_view(records@), username@, now) {
                Some(b) => res matches LoginDecision::Banned { until, reason, issuer } && until
                    == b.until && reason@ == b.reason && match issuer {
                    Some(i) => b.issuer == Some(i@),
                    None => b.issuer is None,
                },
                None => if protocol != PROTOCOL_VERSION {
                    res is Unsupported
                } else if online_has(online@, username@) {
                    res is NameTaken
                } else {
                    res is Accept
                },
            }
        }),
{
    let ghost r = records_view(records@);
    if let Some(i) = find_record(records, username) {
        if let Some(b) = &records[i].1.banned {
            if now < b.until {
                let issuer = match &b.issuer {
                    Some(s) => Some(s.clone()),
                    None => None,
                };
                return LoginDecision::Banned { until: b.until, reason: b.reason.clone(), issuer };
            }
        }
    }
    if !protocol_supported(protocol) {
        return LoginDecision::Unsupported;
    }
    let mut k: usize = 0;
    while k < online.len()
        invariant
            k <= online@.len(),
            forall|j: int| 0 <= j < k ==> (#[trigger] online@[j])@ != username@,
        decreases online@.len() - k,
    {
        if str_eq(online[k].as_str(), username) {
            assert(online@[k as int]@ == username@);
            return LoginDecision::NameTaken;
        }
        k = k + 1;
    }
    LoginDecision::Accept
}

} // verus!
