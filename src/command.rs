//! The typed commands, and the two conversions between them and the
//! generic form.
use vstd::prelude::*;

use crate::error::Error;
use crate::generic::{
    opt_view, strings_view, CodeModel, GenericIrcCommand, GenericIrcCommandType, GenericModel,
};
use crate::text::{decimal, decimal_string, owned, parse_u32, same_text, u32_of};

verus! {

/// A command, typed where the protocol gives it a meaning this library knows.
#[derive(Debug, PartialEq, Clone)]
pub enum IrcCommand {
    Pass(String),
    Nick(String),
    /// Username and real name.
    User(String, String),
    Ping(String),
    Pong(String),
    /// Target and text.
    Notice(String, String),
    ErrorMsg(String),
    RplWelcome(String, String),
    RplYourHost(String, String),
    RplCreated(String, String),
    RplMyInfo {
        client: String,
        server_name: String,
        server_version: String,
        umodes: String,
        cmodes: String,
        cmodes_params: Option<String>,
    },
    RplISupport(String, Vec<String>, String),
    RplLUserClient(String, String),
    RplLUserOp(String, u32, String),
    RplLUserUnknown(String, u32, String),
    RplLUserChannels(String, u32, String),
    RplLUserMe(String, String),
    RplLocalUsers(String, Option<(u32, u32)>, String),
    RplGlobalUsers(String, Option<(u32, u32)>, String),
    RplMotdStart(String, String),
    RplMotd(String, String),
    RplEndOfMotd(String, String),
    RplHostHidden(String, String, String),
    Generic(GenericIrcCommand),
}

/// What a typed command is, as characters and numbers.
pub enum CommandModel {
    Pass(Seq<char>),
    Nick(Seq<char>),
    User(Seq<char>, Seq<char>),
    Ping(Seq<char>),
    Pong(Seq<char>),
    Notice(Seq<char>, Seq<char>),
    ErrorMsg(Seq<char>),
    RplWelcome(Seq<char>, Seq<char>),
    RplYourHost(Seq<char>, Seq<char>),
    RplCreated(Seq<char>, Seq<char>),
    RplMyInfo {
        client: Seq<char>,
        server_name: Seq<char>,
        server_version: Seq<char>,
        umodes: Seq<char>,
        cmodes: Seq<char>,
        cmodes_params: Option<Seq<char>>,
    },
    RplISupport(Seq<char>, Seq<Seq<char>>, Seq<char>),
    RplLUserClient(Seq<char>, Seq<char>),
    RplLUserOp(Seq<char>, u32, Seq<char>),
    RplLUserUnknown(Seq<char>, u32, Seq<char>),
    RplLUserChannels(Seq<char>, u32, Seq<char>),
    RplLUserMe(Seq<char>, Seq<char>),
    RplLocalUsers(Seq<char>, Option<(u32, u32)>, Seq<char>),
    RplGlobalUsers(Seq<char>, Option<(u32, u32)>, Seq<char>),
    RplMotdStart(Seq<char>, Seq<char>),
    RplMotd(Seq<char>, Seq<char>),
    RplEndOfMotd(Seq<char>, Seq<char>),
    RplHostHidden(Seq<char>, Seq<char>, Seq<char>),
    Generic(GenericModel),
}

impl View for IrcCommand {
    type V = CommandModel;

    open spec fn view(&self) -> CommandModel {
        match self {
            IrcCommand::Pass(a) => CommandModel::Pass(a@),
            IrcCommand::Nick(a) => CommandModel::Nick(a@),
            IrcCommand::User(a, b) => CommandModel::User(a@, b@),
            IrcCommand::Ping(a) => CommandModel::Ping(a@),
            IrcCommand::Pong(a) => CommandModel::Pong(a@),
            IrcCommand::Notice(a, b) => CommandModel::Notice(a@, b@),
            IrcCommand::ErrorMsg(a) => CommandModel::ErrorMsg(a@),
            IrcCommand::RplWelcome(a, b) => CommandModel::RplWelcome(a@, b@),
            IrcCommand::RplYourHost(a, b) => CommandModel::RplYourHost(a@, b@),
            IrcCommand::RplCreated(a, b) => CommandModel::RplCreated(a@, b@),
            IrcCommand::RplMyInfo {
                client,
                server_name,
                server_version,
                umodes,
                cmodes,
                cmodes_params,
            } => CommandModel::RplMyInfo {
                client: client@,
                server_name: server_name@,
                server_version: server_version@,
                umodes: umodes@,
                cmodes: cmodes@,
                cmodes_params: opt_view(*cmodes_params),
            },
            IrcCommand::RplISupport(a, caps, b) => CommandModel::RplISupport(
                a@,
                strings_view(caps@),
                b@,
            ),
            IrcCommand::RplLUserClient(a, b) => CommandModel::RplLUserClient(a@, b@),
            IrcCommand::RplLUserOp(a, n, b) => CommandModel::RplLUserOp(a@, *n, b@),
            IrcCommand::RplLUserUnknown(a, n, b) => CommandModel::RplLUserUnknown(a@, *n, b@),
            IrcCommand::RplLUserChannels(a, n, b) => CommandModel::RplLUserChannels(a@, *n, b@),
            IrcCommand::RplLUserMe(a, b) => CommandModel::RplLUserMe(a@, b@),
            IrcCommand::RplLocalUsers(a, u, b) => CommandModel::RplLocalUsers(a@, *u, b@),
            IrcCommand::RplGlobalUsers(a, u, b) => CommandModel::RplGlobalUsers(a@, *u, b@),
            IrcCommand::RplMotdStart(a, b) => CommandModel::RplMotdStart(a@, b@),
            IrcCommand::RplMotd(a, b) => CommandModel::RplMotd(a@, b@),
            IrcCommand::RplEndOfMotd(a, b) => CommandModel::RplEndOfMotd(a@, b@),
            IrcCommand::RplHostHidden(a, h, b) => CommandModel::RplHostHidden(a@, h@, b@),
            IrcCommand::Generic(g) => CommandModel::Generic(g@),
        }
    }
}

// ---- The command words ----

pub open spec fn word_pass() -> Seq<char> {
    seq!['P', 'A', 'S', 'S']
}

pub open spec fn word_nick() -> Seq<char> {
    seq!['N', 'I', 'C', 'K']
}

pub open spec fn word_user() -> Seq<char> {
    seq!['U', 'S', 'E', 'R']
}

pub open spec fn word_ping() -> Seq<char> {
    seq!['P', 'I', 'N', 'G']
}

pub open spec fn word_pong() -> Seq<char> {
    seq!['P', 'O', 'N', 'G']
}

pub open spec fn word_notice() -> Seq<char> {
    seq!['N', 'O', 'T', 'I', 'C', 'E']
}

pub open spec fn word_error() -> Seq<char> {
    seq!['E', 'R', 'R', 'O', 'R']
}

/// The codes that have a typed form.
pub open spec fn is_mapped(c: CodeModel) -> bool {
    match c {
        CodeModel::Text(t) => t == word_pass() || t == word_nick() || t == word_user() || t
            == word_ping() || t == word_pong() || t == word_notice() || t == word_error(),
        CodeModel::Number(n) => n == 1 || n == 2 || n == 3 || n == 4 || n == 5 || (251 <= n
            <= 255) || n == 265 || n == 266 || n == 372 || n == 375 || n == 376 || n == 396,
    }
}

// ---- From the generic form to a typed command ----

/// The first parameter and the trailing one.
pub open spec fn target_and_text(g: GenericModel) -> Option<(Seq<char>, Seq<char>)> {
    if g.params.len() >= 1 && g.trailing is Some {
        Some((g.params[0], g.trailing->0))
    } else {
        None
    }
}

/// The first parameter, a count in the second, and the trailing one.
pub open spec fn target_count_text(g: GenericModel) -> Option<(Seq<char>, u32, Seq<char>)> {
    if g.params.len() >= 2 && g.trailing is Some && u32_of(g.params[1]) is Some {
        Some((g.params[0], u32_of(g.params[1])->0, g.trailing->0))
    } else {
        None
    }
}

/// The first parameter, then either nothing or a current and a maximum
/// count, and the trailing parameter.
pub open spec fn target_users_text(g: GenericModel) -> Option<
    (Seq<char>, Option<(u32, u32)>, Seq<char>),
> {
    if g.trailing is None {
        None
    } else if g.params.len() == 1 {
        Some((g.params[0], None, g.trailing->0))
    } else if g.params.len() == 3 && u32_of(g.params[1]) is Some && u32_of(g.params[2]) is Some {
        Some(
            (
                g.params[0],
                Some((u32_of(g.params[1])->0, u32_of(g.params[2])->0)),
                g.trailing->0,
            ),
        )
    } else {
        None
    }
}

/// All parameters, the trailing one last.
pub open spec fn all_params(g: GenericModel) -> Seq<Seq<char>> {
    match g.trailing {
        Some(t) => g.params.push(t),
        None => g.params,
    }
}

pub open spec fn two_text(
    r: Option<(Seq<char>, Seq<char>)>,
    f: spec_fn(Seq<char>, Seq<char>) -> CommandModel,
) -> Option<CommandModel> {
    match r {
        Some((a, b)) => Some(f(a, b)),
        None => None,
    }
}

pub open spec fn count_text(
    r: Option<(Seq<char>, u32, Seq<char>)>,
    f: spec_fn(Seq<char>, u32, Seq<char>) -> CommandModel,
) -> Option<CommandModel> {
    match r {
        Some((a, n, b)) => Some(f(a, n, b)),
        None => None,
    }
}

pub open spec fn users_text(
    r: Option<(Seq<char>, Option<(u32, u32)>, Seq<char>)>,
    f: spec_fn(Seq<char>, Option<(u32, u32)>, Seq<char>) -> CommandModel,
) -> Option<CommandModel> {
    match r {
        Some((a, u, b)) => Some(f(a, u, b)),
        None => None,
    }
}

/// The typed command for a generic one. `None` where the code has a typed
/// form but a parameter it needs is missing or is not a number.
pub open spec fn promote(g: GenericModel) -> Option<CommandModel> {
    match g.code {
        CodeModel::Text(t) => if t == word_pass() {
            if g.params.len() >= 1 {
                Some(CommandModel::Pass(g.params[0]))
            } else {
                None
            }
        } else if t == word_nick() {
            if g.params.len() >= 1 {
                Some(CommandModel::Nick(g.params[0]))
            } else {
                None
            }
        } else if t == word_user() {
            if all_params(g).len() >= 2 {
                Some(CommandModel::User(all_params(g)[0], all_params(g).last()))
            } else {
                None
            }
        } else if t == word_ping() {
            match g.trailing {
                Some(x) => Some(CommandModel::Ping(x)),
                None => None,
            }
        } else if t == word_pong() {
            match g.trailing {
                Some(x) => Some(CommandModel::Pong(x)),
                None => None,
            }
        } else if t == word_notice() {
            two_text(target_and_text(g), |a, b| CommandModel::Notice(a, b))
        } else if t == word_error() {
            match g.trailing {
                Some(x) => Some(CommandModel::ErrorMsg(x)),
                None => None,
            }
        } else {
            Some(CommandModel::Generic(g))
        },
        CodeModel::Number(n) => if n == 1 {
            two_text(target_and_text(g), |a, b| CommandModel::RplWelcome(a, b))
        } else if n == 2 {
            two_text(target_and_text(g), |a, b| CommandModel::RplYourHost(a, b))
        } else if n == 3 {
            two_text(target_and_text(g), |a, b| CommandModel::RplCreated(a, b))
        } else if n == 4 {
            if g.params.len() >= 5 {
                Some(
                    CommandModel::RplMyInfo {
                        client: g.params[0],
                        server_name: g.params[1],
                        server_version: g.params[2],
                        umodes: g.params[3],
                        cmodes: g.params[4],
                        cmodes_params: if g.params.len() >= 6 {
                            Some(g.params[5])
                        } else {
                            None
                        },
                    },
                )
            } else {
                None
            }
        } else if n == 5 {
            if g.params.len() >= 1 && g.trailing is Some {
                Some(CommandModel::RplISupport(g.params[0], g.params.skip(1), g.trailing->0))
            } else {
                None
            }
        } else if n == 251 {
            two_text(target_and_text(g), |a, b| CommandModel::RplLUserClient(a, b))
        } else if n == 252 {
            count_text(target_count_text(g), |a, c, b| CommandModel::RplLUserOp(a, c, b))
        } else if n == 253 {
            count_text(target_count_text(g), |a, c, b| CommandModel::RplLUserUnknown(a, c, b))
        } else if n == 254 {
            count_text(target_count_text(g), |a, c, b| CommandModel::RplLUserChannels(a, c, b))
        } else if n == 255 {
            two_text(target_and_text(g), |a, b| CommandModel::RplLUserMe(a, b))
        } else if n == 265 {
            users_text(target_users_text(g), |a, u, b| CommandModel::RplLocalUsers(a, u, b))
        } else if n == 266 {
            users_text(target_users_text(g), |a, u, b| CommandModel::RplGlobalUsers(a, u, b))
        } else if n == 375 {
            two_text(target_and_text(g), |a, b| CommandModel::RplMotdStart(a, b))
        } else if n == 372 {
            two_text(target_and_text(g), |a, b| CommandModel::RplMotd(a, b))
        } else if n == 376 {
            two_text(target_and_text(g), |a, b| CommandModel::RplEndOfMotd(a, b))
        } else if n == 396 {
            if g.params.len() >= 2 && g.trailing is Some {
                Some(CommandModel::RplHostHidden(g.params[0], g.params[1], g.trailing->0))
            } else {
                None
            }
        } else {
            Some(CommandModel::Generic(g))
        },
    }
}

// ---- From a typed command to the generic form ----

pub open spec fn gm(code: CodeModel, params: Seq<Seq<char>>, trailing: Option<Seq<char>>) -> GenericModel {
    GenericModel { code, params, trailing }
}

pub open spec fn users_params(a: Seq<char>, u: Option<(u32, u32)>) -> Seq<Seq<char>> {
    match u {
        None => seq![a],
        Some((cur, max)) => seq![a, decimal(cur as nat), decimal(max as nat)],
    }
}

/// The generic form of a typed command.
pub open spec fn demote(c: CommandModel) -> GenericModel {
    match c {
        CommandModel::Pass(p) => gm(CodeModel::Text(word_pass()), seq![p], None),
        CommandModel::Nick(n) => gm(CodeModel::Text(word_nick()), seq![n], None),
        CommandModel::User(u, r) => gm(
            CodeModel::Text(word_user()),
            seq![u, seq!['0'], seq!['*'], r],
            None,
        ),
        CommandModel::Ping(m) => gm(CodeModel::Text(word_ping()), seq![], Some(m)),
        CommandModel::Pong(m) => gm(CodeModel::Text(word_pong()), seq![], Some(m)),
        CommandModel::Notice(t, m) => gm(CodeModel::Text(word_notice()), seq![t], Some(m)),
        CommandModel::ErrorMsg(m) => gm(CodeModel::Text(word_error()), seq![], Some(m)),
        CommandModel::RplWelcome(a, m) => gm(CodeModel::Number(1), seq![a], Some(m)),
        CommandModel::RplYourHost(a, m) => gm(CodeModel::Number(2), seq![a], Some(m)),
        CommandModel::RplCreated(a, m) => gm(CodeModel::Number(3), seq![a], Some(m)),
        CommandModel::RplMyInfo {
            client,
            server_name,
            server_version,
            umodes,
            cmodes,
            cmodes_params,
        } => gm(
            CodeModel::Number(4),
            match cmodes_params {
                Some(p) => seq![client, server_name, server_version, umodes, cmodes, p],
                None => seq![client, server_name, server_version, umodes, cmodes],
            },
            None,
        ),
        CommandModel::RplISupport(a, caps, m) => gm(
            CodeModel::Number(5),
            seq![a] + caps,
            Some(m),
        ),
        CommandModel::RplLUserClient(a, m) => gm(CodeModel::Number(251), seq![a], Some(m)),
        CommandModel::RplLUserOp(a, n, m) => gm(
            CodeModel::Number(252),
            seq![a, decimal(n as nat)],
            Some(m),
        ),
        CommandModel::RplLUserUnknown(a, n, m) => gm(
            CodeModel::Number(253),
            seq![a, decimal(n as nat)],
            Some(m),
        ),
        CommandModel::RplLUserChannels(a, n, m) => gm(
            CodeModel::Number(254),
            seq![a, decimal(n as nat)],
            Some(m),
        ),
        CommandModel::RplLUserMe(a, m) => gm(CodeModel::Number(255), seq![a], Some(m)),
        CommandModel::RplLocalUsers(a, u, m) => gm(
            CodeModel::Number(265),
            users_params(a, u),
            Some(m),
        ),
        CommandModel::RplGlobalUsers(a, u, m) => gm(
            CodeModel::Number(266),
            users_params(a, u),
            Some(m),
        ),
        CommandModel::RplMotdStart(a, m) => gm(CodeModel::Number(375), seq![a], Some(m)),
        CommandModel::RplMotd(a, m) => gm(CodeModel::Number(372), seq![a], Some(m)),
        CommandModel::RplEndOfMotd(a, m) => gm(CodeModel::Number(376), seq![a], Some(m)),
        CommandModel::RplHostHidden(a, h, m) => gm(CodeModel::Number(396), seq![a, h], Some(m)),
        CommandModel::Generic(g) => g,
    }
}

// ---- Executable conversions ----

pub open spec fn word_number(t: Seq<char>) -> u8 {
    if t == word_pass() {
        0
    } else if t == word_nick() {
        1
    } else if t == word_user() {
        2
    } else if t == word_ping() {
        3
    } else if t == word_pong() {
        4
    } else if t == word_notice() {
        5
    } else if t == word_error() {
        6
    } else {
        7
    }
}

proof fn lemma_words()
    ensures
        "PASS"@ == word_pass(),
        "NICK"@ == word_nick(),
        "USER"@ == word_user(),
        "PING"@ == word_ping(),
        "PONG"@ == word_pong(),
        "NOTICE"@ == word_notice(),
        "ERROR"@ == word_error(),
        "0"@ == seq!['0'],
        "*"@ == seq!['*'],
{
    reveal_strlit("PASS");
    reveal_strlit("NICK");
    reveal_strlit("USER");
    reveal_strlit("PING");
    reveal_strlit("PONG");
    reveal_strlit("NOTICE");
    reveal_strlit("ERROR");
    reveal_strlit("0");
    reveal_strlit("*");
    assert("PASS"@ =~= word_pass());
    assert("NICK"@ =~= word_nick());
    assert("USER"@ =~= word_user());
    assert("PING"@ =~= word_ping());
    assert("PONG"@ =~= word_pong());
    assert("NOTICE"@ =~= word_notice());
    assert("ERROR"@ =~= word_error());
    assert("0"@ =~= seq!['0']);
    assert("*"@ =~= seq!['*']);
}

/// Which of the command words `t` is; 7 for none of them.
fn word_of(t: &String) -> (r: u8)
    ensures
        r == word_number(t@),
{
    proof {
        lemma_words();
    }
    if same_text(t.as_str(), "PASS") {
        0
    } else if same_text(t.as_str(), "NICK") {
        1
    } else if same_text(t.as_str(), "USER") {
        2
    } else if same_text(t.as_str(), "PING") {
        3
    } else if same_text(t.as_str(), "PONG") {
        4
    } else if same_text(t.as_str(), "NOTICE") {
        5
    } else if same_text(t.as_str(), "ERROR") {
        6
    } else {
        7
    }
}

fn param(g: &GenericIrcCommand, i: usize) -> (r: String)
    requires
        i < g.params.len(),
    ensures
        r@ == g@.params[i as int],
{
    g.params[i].clone()
}

fn trailing_of(g: &GenericIrcCommand) -> (r: Option<String>)
    ensures
        opt_view(r) == g@.trailing,
{
    match &g.trailing {
        Some(t) => Some(t.clone()),
        None => None,
    }
}

fn target_and_text_of(g: &GenericIrcCommand) -> (r: Option<(String, String)>)
    ensures
        match target_and_text(g@) {
            Some((a, b)) => r matches Some((x, y)) && x@ == a && y@ == b,
            None => r is None,
        },
{
    if g.params.len() >= 1 {
        match trailing_of(g) {
            Some(t) => Some((param(g, 0), t)),
            None => None,
        }
    } else {
        None
    }
}

fn target_count_text_of(g: &GenericIrcCommand) -> (r: Option<(String, u32, String)>)
    ensures
        match target_count_text(g@) {
            Some((a, n, b)) => r matches Some((x, m, y)) && x@ == a && m == n && y@ == b,
            None => r is None,
        },
{
    if g.params.len() >= 2 {
        match trailing_of(g) {
            Some(t) => match parse_u32(g.params[1].as_str()) {
                Some(n) => Some((param(g, 0), n, t)),
                None => None,
            },
            None => None,
        }
    } else {
        None
    }
}

fn target_users_text_of(g: &GenericIrcCommand) -> (r: Option<
    (String, Option<(u32, u32)>, String),
>)
    ensures
        match target_users_text(g@) {
            Some((a, u, b)) => r matches Some((x, v, y)) && x@ == a && v == u && y@ == b,
            None => r is None,
        },
{
    let t = match trailing_of(g) {
        Some(t) => t,
        None => {
            return None;
        },
    };
    if g.params.len() == 1 {
        Some((param(g, 0), None, t))
    } else if g.params.len() == 3 {
        match (parse_u32(g.params[1].as_str()), parse_u32(g.params[2].as_str())) {
            (Some(cur), Some(max)) => Some((param(g, 0), Some((cur, max)), t)),
            _ => None,
        }
    } else {
        None
    }
}

fn push_string(v: &mut Vec<String>, s: String)
    ensures
        strings_view(final(v)@) == strings_view(old(v)@).push(s@),
{
    v.push(s);
    assert(strings_view(v@) =~= strings_view(old(v)@).push(s@));
}

fn one(a: String) -> (r: Vec<String>)
    ensures
        strings_view(r@) == seq![a@],
{
    let mut v: Vec<String> = Vec::new();
    v.push(a);
    assert(strings_view(v@) =~= seq![a@]);
    v
}

fn two(a: String, b: String) -> (r: Vec<String>)
    ensures
        strings_view(r@) == seq![a@, b@],
{
    let mut v: Vec<String> = Vec::new();
    v.push(a);
    v.push(b);
    assert(strings_view(v@) =~= seq![a@, b@]);
    v
}

fn three(a: String, b: String, c: String) -> (r: Vec<String>)
    ensures
        strings_view(r@) == seq![a@, b@, c@],
{
    let mut v: Vec<String> = Vec::new();
    v.push(a);
    v.push(b);
    v.push(c);
    assert(strings_view(v@) =~= seq![a@, b@, c@]);
    v
}

fn no_params() -> (r: Vec<String>)
    ensures
        strings_view(r@) == Seq::<Seq<char>>::empty(),
{
    let v: Vec<String> = Vec::new();
    assert(strings_view(v@) =~= Seq::<Seq<char>>::empty());
    v
}

fn text_code(lit: &str) -> (r: GenericIrcCommandType)
    ensures
        r@ == CodeModel::Text(lit@),
{
    GenericIrcCommandType::Text(owned(lit))
}

fn with_text(code: GenericIrcCommandType, params: Vec<String>, m: String) -> (r: GenericIrcCommand)
    ensures
        r@ == gm(code@, strings_view(params@), Some(m@)),
{
    let r = GenericIrcCommand { command: code, params, trailing: Some(m) };
    assert(r@ =~= gm(code@, strings_view(params@), Some(m@)));
    r
}

fn without_text(code: GenericIrcCommandType, params: Vec<String>) -> (r: GenericIrcCommand)
    ensures
        r@ == gm(code@, strings_view(params@), None),
{
    let r = GenericIrcCommand { command: code, params, trailing: None };
    assert(r@ =~= gm(code@, strings_view(params@), None));
    r
}

impl IrcCommand {
    /// The typed command for a generic one: a known code gives its typed
    /// form, an unknown one stays generic. Fails with `Invalid` where a
    /// known code lacks a parameter it needs.
    pub fn from_generic(g: GenericIrcCommand) -> (r: Result<IrcCommand, Error>)
        ensures
            match promote(g@) {
                Some(c) => r matches Ok(x) && x@ == c,
                None => r == Err::<IrcCommand, Error>(Error::Invalid),
            },
    {
        let word: u8 = match &g.command {
            GenericIrcCommandType::Text(t) => word_of(t),
            GenericIrcCommandType::Number(_) => 8,
        };
        let number: u16 = match &g.command {
            GenericIrcCommandType::Text(_) => 0,
            GenericIrcCommandType::Number(n) => *n,
        };
        let np = g.params.len();
        if word < 8 {
            if word == 0 || word == 1 {
                if np >= 1 {
                    let p = param(&g, 0);
                    if word == 0 {
                        Ok(IrcCommand::Pass(p))
                    } else {
                        Ok(IrcCommand::Nick(p))
                    }
                } else {
                    Err(Error::Invalid)
                }
            } else if word == 2 {
                match trailing_of(&g) {
                    Some(t) => if np >= 1 {
                        Ok(IrcCommand::User(param(&g, 0), t))
                    } else {
                        Err(Error::Invalid)
                    },
                    None => if np >= 2 {
                        Ok(IrcCommand::User(param(&g, 0), param(&g, np - 1)))
                    } else {
                        Err(Error::Invalid)
                    },
                }
            } else if word == 3 || word == 4 || word == 6 {
                match trailing_of(&g) {
                    Some(t) => if word == 3 {
                        Ok(IrcCommand::Ping(t))
                    } else if word == 4 {
                        Ok(IrcCommand::Pong(t))
                    } else {
                        Ok(IrcCommand::ErrorMsg(t))
                    },
                    None => Err(Error::Invalid),
                }
            } else if word == 5 {
                match target_and_text_of(&g) {
                    Some((a, b)) => Ok(IrcCommand::Notice(a, b)),
                    None => Err(Error::Invalid),
                }
            } else {
                Ok(IrcCommand::Generic(g))
            }
        } else if number == 1 || number == 2 || number == 3 || number == 251 || number == 255
            || number == 375 || number == 372 || number == 376 {
            match target_and_text_of(&g) {
                Some((a, b)) => Ok(
                    if number == 1 {
                        IrcCommand::RplWelcome(a, b)
                    } else if number == 2 {
                        IrcCommand::RplYourHost(a, b)
                    } else if number == 3 {
                        IrcCommand::RplCreated(a, b)
                    } else if number == 251 {
                        IrcCommand::RplLUserClient(a, b)
                    } else if number == 255 {
                        IrcCommand::RplLUserMe(a, b)
                    } else if number == 375 {
                        IrcCommand::RplMotdStart(a, b)
                    } else if number == 372 {
                        IrcCommand::RplMotd(a, b)
                    } else {
                        IrcCommand::RplEndOfMotd(a, b)
                    },
                ),
                None => Err(Error::Invalid),
            }
        } else if number == 4 {
            if np >= 5 {
                Ok(
                    IrcCommand::RplMyInfo {
                        client: param(&g, 0),
                        server_name: param(&g, 1),
                        server_version: param(&g, 2),
                        umodes: param(&g, 3),
                        cmodes: param(&g, 4),
                        cmodes_params: if np >= 6 {
                            Some(param(&g, 5))
                        } else {
                            None
                        },
                    },
                )
            } else {
                Err(Error::Invalid)
            }
        } else if number == 5 {
            match target_and_text_of(&g) {
                Some((a, b)) => {
                    let mut caps: Vec<String> = Vec::new();
                    let mut i: usize = 1;
                    while i < np
                        invariant
                            np == g.params.len(),
                            1 <= i <= np,
                            strings_view(caps@) == g@.params.subrange(1, i as int),
                        decreases np - i,
                    {
                        push_string(&mut caps, param(&g, i));
                        assert(g@.params.subrange(1, i as int + 1) =~= g@.params.subrange(
                            1,
                            i as int,
                        ).push(g@.params[i as int]));
                        i = i + 1;
                        assert(strings_view(caps@) =~= g@.params.subrange(1, i as int));
                    }
                    assert(g@.params.subrange(1, np as int) =~= g@.params.skip(1));
                    Ok(IrcCommand::RplISupport(a, caps, b))
                },
                None => Err(Error::Invalid),
            }
        } else if number == 252 || number == 253 || number == 254 {
            match target_count_text_of(&g) {
                Some((a, n, b)) => Ok(
                    if number == 252 {
                        IrcCommand::RplLUserOp(a, n, b)
                    } else if number == 253 {
                        IrcCommand::RplLUserUnknown(a, n, b)
                    } else {
                        IrcCommand::RplLUserChannels(a, n, b)
                    },
                ),
                None => Err(Error::Invalid),
            }
        } else if number == 265 || number == 266 {
            match target_users_text_of(&g) {
                Some((a, u, b)) => Ok(
                    if number == 265 {
                        IrcCommand::RplLocalUsers(a, u, b)
                    } else {
                        IrcCommand::RplGlobalUsers(a, u, b)
                    },
                ),
                None => Err(Error::Invalid),
            }
        } else if number == 396 {
            if np >= 2 {
                match trailing_of(&g) {
                    Some(t) => Ok(IrcCommand::RplHostHidden(param(&g, 0), param(&g, 1), t)),
                    None => Err(Error::Invalid),
                }
            } else {
                Err(Error::Invalid)
            }
        } else {
            Ok(IrcCommand::Generic(g))
        }
    }

    /// The generic form of this command.
    pub fn into_generic(self) -> (r: GenericIrcCommand)
        ensures
            r@ == demote(self@),
    {
        proof {
            lemma_words();
        }
        match self {
            IrcCommand::Pass(p) => without_text(text_code("PASS"), one(p)),
            IrcCommand::Nick(n) => without_text(text_code("NICK"), one(n)),
            IrcCommand::User(u, r) => {
                let mut v = two(u, owned("0"));
                push_string(&mut v, owned("*"));
                push_string(&mut v, r);
                proof {
                    assert(strings_view(v@) =~= seq![u@, seq!['0'], seq!['*'], r@]);
                }
                without_text(text_code("USER"), v)
            },
            IrcCommand::Ping(m) => with_text(text_code("PING"), no_params(), m),
            IrcCommand::Pong(m) => with_text(text_code("PONG"), no_params(), m),
            IrcCommand::Notice(t, m) => with_text(text_code("NOTICE"), one(t), m),
            IrcCommand::ErrorMsg(m) => with_text(text_code("ERROR"), no_params(), m),
            IrcCommand::RplWelcome(a, m) => with_text(GenericIrcCommandType::Number(1), one(a), m),
            IrcCommand::RplYourHost(a, m) => with_text(GenericIrcCommandType::Number(2), one(a), m),
            IrcCommand::RplCreated(a, m) => with_text(GenericIrcCommandType::Number(3), one(a), m),
            IrcCommand::RplMyInfo {
                client,
                server_name,
                server_version,
                umodes,
                cmodes,
                cmodes_params,
            } => {
                let ghost base = seq![client@, server_name@, server_version@, umodes@, cmodes@];
                let mut v = three(client, server_name, server_version);
                push_string(&mut v, umodes);
                push_string(&mut v, cmodes);
                assert(strings_view(v@) =~= base);
                match cmodes_params {
                    Some(p) => {
                        push_string(&mut v, p);
                        assert(strings_view(v@) =~= base.push(p@));
                    },
                    None => {},
                }
                without_text(GenericIrcCommandType::Number(4), v)
            },
            IrcCommand::RplISupport(a, caps, m) => {
                let mut v = one(a);
                let mut rest = caps;
                let ghost first = strings_view(v@);
                let ghost tail = strings_view(rest@);
                v.append(&mut rest);
                assert(strings_view(v@) =~= first + tail);
                with_text(GenericIrcCommandType::Number(5), v, m)
            },
            IrcCommand::RplLUserClient(a, m) => with_text(GenericIrcCommandType::Number(251), one(a), m),
            IrcCommand::RplLUserOp(a, n, m) => with_text(
                GenericIrcCommandType::Number(252),
                two(a, decimal_string(n)),
                m,
            ),
            IrcCommand::RplLUserUnknown(a, n, m) => with_text(
                GenericIrcCommandType::Number(253),
                two(a, decimal_string(n)),
                m,
            ),
            IrcCommand::RplLUserChannels(a, n, m) => with_text(
                GenericIrcCommandType::Number(254),
                two(a, decimal_string(n)),
                m,
            ),
            IrcCommand::RplLUserMe(a, m) => with_text(GenericIrcCommandType::Number(255), one(a), m),
            IrcCommand::RplLocalUsers(a, u, m) => with_text(
                GenericIrcCommandType::Number(265),
                users_vec(a, u),
                m,
            ),
            IrcCommand::RplGlobalUsers(a, u, m) => with_text(
                GenericIrcCommandType::Number(266),
                users_vec(a, u),
                m,
            ),
            IrcCommand::RplMotdStart(a, m) => with_text(GenericIrcCommandType::Number(375), one(a), m),
            IrcCommand::RplMotd(a, m) => with_text(GenericIrcCommandType::Number(372), one(a), m),
            IrcCommand::RplEndOfMotd(a, m) => with_text(GenericIrcCommandType::Number(376), one(a), m),
            IrcCommand::RplHostHidden(a, h, m) => with_text(
                GenericIrcCommandType::Number(396),
                two(a, h),
                m,
            ),
            IrcCommand::Generic(g) => g,
        }
    }
}

fn users_vec(a: String, u: Option<(u32, u32)>) -> (r: Vec<String>)
    ensures
        strings_view(r@) == users_params(a@, u),
{
    match u {
        None => one(a),
        Some((cur, max)) => three(a, decimal_string(cur), decimal_string(max)),
    }
}

} // verus!
