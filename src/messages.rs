//! A plain form of messages: a command word and its parameters, read from
//! whitespace-separated text.
use vstd::prelude::*;

pub mod replys;

use crate::copy::copy_strings;
use crate::generic::{opt_view, strings_view};
use crate::text::{owned, same_text, slice_string};
use replys::{reply_command, ErrorReply, Reply, ReplyModel};

verus! {

/// A message: an optional prefix and a command.
#[derive(Debug, PartialEq, Eq)]
pub struct Message {
    pub prefix: Option<String>,
    pub command: Command,
}

/// Text that does not read as a message.
#[derive(Debug, PartialEq, Eq)]
pub struct ParseCommandError;

#[derive(Debug, PartialEq, Eq)]
pub enum Command {
    Pass(String),
    Nick(String),
    /// Username, hostname, server name and real name.
    User(String, String, String, String),
    Quit,
    Notice(String, String),
    PrivMsg(String, String),
    Join(String),
    Reply(Result<Reply, ErrorReply>),
    Raw(String, Vec<String>),
}

pub enum CmdModel {
    Pass(Seq<char>),
    Nick(Seq<char>),
    User(Seq<char>, Seq<char>, Seq<char>, Seq<char>),
    Quit,
    Notice(Seq<char>, Seq<char>),
    PrivMsg(Seq<char>, Seq<char>),
    Join(Seq<char>),
    Reply(Result<ReplyModel, ReplyModel>),
    Raw(Seq<char>, Seq<Seq<char>>),
}

pub struct MsgModel {
    pub prefix: Option<Seq<char>>,
    pub command: CmdModel,
}

impl View for Command {
    type V = CmdModel;

    open spec fn view(&self) -> CmdModel {
        match self {
            Command::Pass(a) => CmdModel::Pass(a@),
            Command::Nick(a) => CmdModel::Nick(a@),
            Command::User(a, b, c, d) => CmdModel::User(a@, b@, c@, d@),
            Command::Quit => CmdModel::Quit,
            Command::Notice(a, b) => CmdModel::Notice(a@, b@),
            Command::PrivMsg(a, b) => CmdModel::PrivMsg(a@, b@),
            Command::Join(a) => CmdModel::Join(a@),
            Command::Reply(Ok(r)) => CmdModel::Reply(Ok(r@)),
            Command::Reply(Err(r)) => CmdModel::Reply(Err(r@)),
            Command::Raw(name, params) => CmdModel::Raw(name@, strings_view(params@)),
        }
    }
}

impl View for Message {
    type V = MsgModel;

    open spec fn view(&self) -> MsgModel {
        MsgModel { prefix: opt_view(self.prefix), command: self.command@ }
    }
}

// ---- Writing ----

/// The words joined by single spaces.
pub open spec fn joined(ps: Seq<Seq<char>>) -> Seq<char>
    decreases ps.len(),
{
    if ps.len() == 0 {
        Seq::empty()
    } else if ps.len() == 1 {
        ps[0]
    } else {
        joined(ps.drop_last()) + seq![' '] + ps.last()
    }
}

/// The plain form of a command: its word and its parameters.
pub open spec fn raw_form(c: CmdModel) -> CmdModel {
    match c {
        CmdModel::Pass(p) => CmdModel::Raw("PASS"@, seq![p]),
        CmdModel::Nick(n) => CmdModel::Raw("NICK"@, seq![n]),
        CmdModel::User(u, h, s, r) => CmdModel::Raw("USER"@, seq![u, h, s, r]),
        CmdModel::Quit => CmdModel::Raw("QUIT"@, Seq::empty()),
        CmdModel::Notice(n, t) => CmdModel::Raw("NOTICE"@, seq![n, t]),
        CmdModel::PrivMsg(r, m) => CmdModel::Raw("PRIVMSG"@, seq![r, m]),
        CmdModel::Join(c) => CmdModel::Raw("JOIN"@, seq![c]),
        CmdModel::Reply(Ok(r)) => reply_command(r),
        CmdModel::Reply(Err(r)) => reply_command(r),
        CmdModel::Raw(_, _) => c,
    }
}

/// A command as text: its word, then its parameters after single spaces.
pub open spec fn command_line(c: CmdModel) -> Seq<char> {
    match raw_form(c) {
        CmdModel::Raw(name, ps) => if ps.len() == 0 {
            name
        } else {
            name + seq![' '] + joined(ps)
        },
        _ => Seq::empty(),
    }
}

/// A message as text: `:prefix ` before its command where it has a prefix.
pub open spec fn message_line(m: MsgModel) -> Seq<char> {
    match m.prefix {
        Some(p) => seq![':'] + p + seq![' '] + command_line(m.command),
        None => command_line(m.command),
    }
}

// ---- Reading ----

/// The characters that Unicode calls white space.
pub open spec fn is_white(c: char) -> bool {
    let u = c as u32;
    ||| 0x09 <= u <= 0x0D
    ||| u == 0x20
    ||| u == 0x85
    ||| u == 0xA0
    ||| u == 0x1680
    ||| 0x2000 <= u <= 0x200A
    ||| u == 0x2028
    ||| u == 0x2029
    ||| u == 0x202F
    ||| u == 0x205F
    ||| u == 0x3000
}

/// Where the word that starts at `i` ends.
pub open spec fn word_end(s: Seq<char>, i: int) -> int
    decreases s.len() - i,
{
    if i < 0 || i >= s.len() || is_white(s[i]) {
        i
    } else {
        word_end(s, i + 1)
    }
}

/// The words of `s` from `i` on, split at white space.
pub open spec fn words_from(s: Seq<char>, i: int) -> Seq<Seq<char>>
    decreases s.len() - i,
{
    if i < 0 || i >= s.len() {
        Seq::empty()
    } else if is_white(s[i]) {
        words_from(s, i + 1)
    } else {
        let e = word_end(s, i);
        if e <= i || e > s.len() {
            Seq::empty()
        } else {
            seq![s.subrange(i, e)] + words_from(s, e)
        }
    }
}

pub open spec fn starts_with_colon(w: Seq<char>) -> bool {
    w.len() > 0 && w[0] == ':'
}

/// The index of the first word that starts with `:`, or the length.
pub open spec fn first_colon(ps: Seq<Seq<char>>) -> int
    decreases ps.len(),
{
    if ps.len() == 0 {
        0
    } else if starts_with_colon(ps[0]) {
        0
    } else {
        1 + first_colon(ps.drop_first())
    }
}

/// The parameters: the words before the first that starts with `:`, then
/// that word and all after it joined into one.
pub open spec fn combined(ps: Seq<Seq<char>>) -> Seq<Seq<char>> {
    let k = first_colon(ps);
    if k < ps.len() {
        ps.take(k).push(joined(ps.skip(k)))
    } else {
        ps
    }
}

/// The command for a word and its parameters. `None` where a known word
/// lacks a parameter it needs.
pub open spec fn plain_command(name: Seq<char>, ps: Seq<Seq<char>>) -> Option<CmdModel> {
    if name == "PASS"@ {
        if ps.len() >= 1 { Some(CmdModel::Pass(ps[0])) } else { None }
    } else if name == "NICK"@ {
        if ps.len() >= 1 { Some(CmdModel::Nick(ps[0])) } else { None }
    } else if name == "USER"@ {
        if ps.len() >= 4 { Some(CmdModel::User(ps[0], ps[1], ps[2], ps[3])) } else { None }
    } else if name == "QUIT"@ {
        Some(CmdModel::Quit)
    } else if name == "NOTICE"@ {
        if ps.len() >= 2 { Some(CmdModel::Notice(ps[0], ps[1])) } else { None }
    } else if name == "PRIVMSG"@ {
        if ps.len() >= 2 { Some(CmdModel::PrivMsg(ps[0], ps[1])) } else { None }
    } else if name == "JOIN"@ {
        if ps.len() >= 1 { Some(CmdModel::Join(ps[0])) } else { None }
    } else {
        Some(CmdModel::Raw(name, ps))
    }
}

/// The message that a list of words gives: a first word starting with `:`
/// is the prefix of the message the other words give.
pub open spec fn message_of_words(ws: Seq<Seq<char>>) -> Option<MsgModel>
    decreases ws.len(),
{
    if ws.len() == 0 {
        None
    } else if starts_with_colon(ws[0]) {
        match message_of_words(ws.drop_first()) {
            Some(m) => Some(MsgModel { prefix: Some(ws[0].skip(1)), command: m.command }),
            None => None,
        }
    } else {
        match plain_command(ws[0], combined(ws.drop_first())) {
            Some(c) => Some(MsgModel { prefix: None, command: c }),
            None => None,
        }
    }
}

// ---- Executable parts ----

/// The strings joined by single spaces.
pub fn join_strings(ps: &Vec<String>) -> (r: String)
    ensures
        r@ == joined(strings_view(ps@)),
{
    let ghost v = strings_view(ps@);
    let mut out = String::new();
    let mut i: usize = 0;
    while i < ps.len()
        invariant
            i <= ps.len(),
            v == strings_view(ps@),
            out@ == joined(v.take(i as int)),
        decreases ps.len() - i,
    {
        proof {
            reveal_strlit(" ");
        }
        if i > 0 {
            out.append(" ");
        }
        out.append(ps[i].as_str());
        proof {
            assert(v[i as int] == ps@[i as int]@);
            assert(v.take(i as int + 1).drop_last() =~= v.take(i as int));
            if i == 0 {
                assert(joined(v.take(0)) =~= Seq::<char>::empty());
                assert(out@ =~= joined(v.take(1)));
            } else {
                assert(out@ =~= joined(v.take(i as int + 1)));
            }
        }
        i = i + 1;
    }
    assert(v.take(ps.len() as int) =~= v);
    out
}

fn strings1(a: String) -> (r: Vec<String>)
    ensures
        strings_view(r@) == seq![a@],
{
    let mut v: Vec<String> = Vec::new();
    v.push(a);
    assert(strings_view(v@) =~= seq![a@]);
    v
}

fn strings2(a: String, b: String) -> (r: Vec<String>)
    ensures
        strings_view(r@) == seq![a@, b@],
{
    let mut v = strings1(a);
    let ghost before = strings_view(v@);
    v.push(b);
    assert(strings_view(v@) =~= before.push(b@));
    assert(strings_view(v@) =~= seq![a@, b@]);
    v
}

fn strings4(a: String, b: String, c: String, d: String) -> (r: Vec<String>)
    ensures
        strings_view(r@) == seq![a@, b@, c@, d@],
{
    let mut v = strings2(a, b);
    let ghost before = strings_view(v@);
    v.push(c);
    assert(strings_view(v@) =~= before.push(c@));
    let ghost before2 = strings_view(v@);
    v.push(d);
    assert(strings_view(v@) =~= before2.push(d@));
    assert(strings_view(v@) =~= seq![a@, b@, c@, d@]);
    v
}

impl Command {
    /// The command as a word and its parameters.
    pub fn raw(&self) -> (r: Command)
        ensures
            r@ == raw_form(self@),
    {
        match self {
            Command::Pass(pass) => Command::Raw(owned("PASS"), strings1(pass.clone())),
            Command::Nick(nickname) => Command::Raw(owned("NICK"), strings1(nickname.clone())),
            Command::User(username, hostname, servername, realname) => Command::Raw(
                owned("USER"),
                strings4(username.clone(), hostname.clone(), servername.clone(), realname.clone()),
            ),
            Command::Quit => {
                let v: Vec<String> = Vec::new();
                assert(strings_view(v@) =~= Seq::<Seq<char>>::empty());
                Command::Raw(owned("QUIT"), v)
            },
            Command::Notice(nickname, notice) => Command::Raw(
                owned("NOTICE"),
                strings2(nickname.clone(), notice.clone()),
            ),
            Command::PrivMsg(receiver, message) => Command::Raw(
                owned("PRIVMSG"),
                strings2(receiver.clone(), message.clone()),
            ),
            Command::Join(channel) => Command::Raw(owned("JOIN"), strings1(channel.clone())),
            Command::Reply(reply) => match reply {
                Ok(reply) => reply.raw().raw_command(),
                Err(reply) => reply.raw().raw_command(),
            },
            Command::Raw(name, params) => Command::Raw(name.clone(), copy_strings(params)),
        }
    }

    /// The command as text: its word, then its parameters after single spaces.
    pub fn to_text(&self) -> (r: String)
        ensures
            r@ == command_line(self@),
    {
        match self.raw() {
            Command::Raw(command, params) => {
                if params.len() == 0 {
                    return command;
                }
                let mut out = command;
                proof {
                    reveal_strlit(" ");
                }
                out.append(" ");
                out.append(join_strings(&params).as_str());
                out
            },
            _ => String::new(),
        }
    }
}

/// The white space characters, one by one.
fn white(c: char) -> (r: bool)
    ensures
        r == is_white(c),
{
    let u = c as u32;
    (0x09 <= u && u <= 0x0D) || u == 0x20 || u == 0x85 || u == 0xA0 || u == 0x1680 || (0x2000
        <= u && u <= 0x200A) || u == 0x2028 || u == 0x2029 || u == 0x202F || u == 0x205F || u
        == 0x3000
}

proof fn lemma_word_end(s: Seq<char>, i: int, j: int)
    requires
        0 <= i <= j <= s.len(),
        forall|m: int| i <= m < j ==> !is_white(#[trigger] s[m]),
        j == s.len() || is_white(s[j]),
    ensures
        word_end(s, i) == j,
    decreases j - i,
{
    if i < j {
        lemma_word_end(s, i + 1, j);
    }
}

/// Splits `s` at white space.
fn split_words(s: &str) -> (r: Vec<String>)
    ensures
        strings_view(r@) == words_from(s@, 0),
{
    let cs = crate::text::chars_of(s);
    let n = cs.len();
    let mut out: Vec<String> = Vec::new();
    let mut i: usize = 0;
    while i < n
        invariant
            cs@ == s@,
            n == s@.len(),
            i <= n,
            strings_view(out@) + words_from(s@, i as int) == words_from(s@, 0),
        decreases n - i,
    {
        if white(cs[i]) {
            i = i + 1;
        } else {
            let mut j = i + 1;
            while j < n && !white(cs[j])
                invariant
                    cs@ == s@,
                    n == s@.len(),
                    i < j <= n,
                    !is_white(s@[i as int]),
                    forall|m: int| i <= m < j ==> !is_white(#[trigger] s@[m]),
                decreases n - j,
            {
                j = j + 1;
            }
            proof {
                lemma_word_end(s@, i as int, j as int);
            }
            let w = slice_string(s, i, j);
            let ghost before = strings_view(out@);
            out.push(w);
            assert(strings_view(out@) =~= before.push(w@));
            assert(seq![w@] + words_from(s@, j as int) =~= words_from(s@, i as int));
            assert(strings_view(out@) + words_from(s@, j as int) =~= before + words_from(
                s@,
                i as int,
            ));
            i = j;
        }
    }
    assert(words_from(s@, n as int) =~= Seq::<Seq<char>>::empty());
    assert(strings_view(out@) =~= words_from(s@, 0));
    out
}

proof fn lemma_first_colon_at(ps: Seq<Seq<char>>, k: int)
    requires
        0 <= k <= ps.len(),
        forall|m: int| 0 <= m < k ==> !starts_with_colon(#[trigger] ps[m]),
        k == ps.len() || starts_with_colon(ps[k]),
    ensures
        first_colon(ps) == k,
    decreases k,
{
    if k > 0 {
        lemma_first_colon_at(ps.drop_first(), k - 1);
    }
}

/// The parameters after the word at `start`, combined from the first that
/// starts with `:`.
fn combine_params(ws: &Vec<String>, start: usize) -> (r: Vec<String>)
    requires
        start < ws.len(),
    ensures
        strings_view(r@) == combined(strings_view(ws@).skip(start + 1)),
{
    let ghost ps = strings_view(ws@).skip(start + 1);
    let mut params: Vec<String> = Vec::new();
    let mut combining = false;
    let mut combined_string = String::new();
    let mut i: usize = start + 1;
    let ghost mut k: int = 0;
    while i < ws.len()
        invariant
            start < i <= ws.len(),
            ps == strings_view(ws@).skip(start + 1),
            !combining ==> strings_view(params@) == ps.take(i - start - 1),
            !combining ==> forall|m: int| 0 <= m < i - start - 1 ==> !starts_with_colon(
                #[trigger] ps[m],
            ),
            combining ==> 0 <= k < i - start - 1 && strings_view(params@) == ps.take(k)
                && first_colon(ps) == k && combined_string@ == joined(
                ps.subrange(k, i - start - 1),
            ),
        decreases ws.len() - i,
    {
        let ghost idx = i - start - 1;
        let x = &ws[i];
        assert(ps[idx] == x@);
        proof {
            reveal_strlit(" ");
        }
        if combining {
            combined_string.append(" ");
            combined_string.append(x.as_str());
            assert(ps.subrange(k, idx + 1).drop_last() =~= ps.subrange(k, idx));
            assert(ps.subrange(k, idx + 1).len() >= 2);
        } else if x.as_str().unicode_len() > 0 && x.as_str().get_char(0) == ':' {
            proof {
                lemma_first_colon_at(ps, idx);
                k = idx;
                assert(joined(ps.subrange(k, idx + 1)) == ps[idx]) by {
                    assert(ps.subrange(k, idx + 1) =~= seq![ps[idx]]);
                }
            }
            combining = true;
            combined_string = x.clone();
        } else {
            let ghost before = strings_view(params@);
            params.push(x.clone());
            assert(strings_view(params@) =~= before.push(x@));
            assert(ps.take(idx + 1) =~= ps.take(idx).push(ps[idx]));
        }
        i = i + 1;
    }
    if combining {
        let ghost before = strings_view(params@);
        params.push(combined_string);
        assert(ps.subrange(k, ps.len() as int) =~= ps.skip(k));
        assert(strings_view(params@) =~= before.push(joined(ps.skip(k))));
    } else {
        proof {
            assert(ps.take(ps.len() as int) =~= ps);
            lemma_first_colon_at(ps, ps.len() as int);
        }
    }
    params
}

fn plain_command_of(name: String, ps: Vec<String>) -> (r: Result<Command, ParseCommandError>)
    ensures
        match plain_command(name@, strings_view(ps@)) {
            Some(c) => r matches Ok(x) && x@ == c,
            None => r is Err,
        },
{
    let n = ps.len();
    let ghost v = strings_view(ps@);
    if same_text(name.as_str(), "PASS") {
        if n >= 1 { Ok(Command::Pass(ps[0].clone())) } else { Err(ParseCommandError) }
    } else if same_text(name.as_str(), "NICK") {
        if n >= 1 { Ok(Command::Nick(ps[0].clone())) } else { Err(ParseCommandError) }
    } else if same_text(name.as_str(), "USER") {
        if n >= 4 {
            Ok(Command::User(ps[0].clone(), ps[1].clone(), ps[2].clone(), ps[3].clone()))
        } else {
            Err(ParseCommandError)
        }
    } else if same_text(name.as_str(), "QUIT") {
        Ok(Command::Quit)
    } else if same_text(name.as_str(), "NOTICE") {
        if n >= 2 { Ok(Command::Notice(ps[0].clone(), ps[1].clone())) } else { Err(ParseCommandError) }
    } else if same_text(name.as_str(), "PRIVMSG") {
        if n >= 2 { Ok(Command::PrivMsg(ps[0].clone(), ps[1].clone())) } else { Err(ParseCommandError) }
    } else if same_text(name.as_str(), "JOIN") {
        if n >= 1 { Ok(Command::Join(ps[0].clone())) } else { Err(ParseCommandError) }
    } else {
        Ok(Command::Raw(name, ps))
    }
}

/// The message that the words from `start` on give.
fn message_of(ws: &Vec<String>, start: usize) -> (r: Result<Message, ParseCommandError>)
    requires
        start <= ws.len(),
    ensures
        match message_of_words(strings_view(ws@).skip(start as int)) {
            Some(m) => r matches Ok(x) && x@ == m,
            None => r is Err,
        },
    decreases ws.len() - start,
{
    let ghost v = strings_view(ws@).skip(start as int);
    if start == ws.len() {
        return Err(ParseCommandError);
    }
    let first = &ws[start];
    assert(v[0] == first@);
    assert(v.drop_first() =~= strings_view(ws@).skip(start + 1));
    if first.as_str().unicode_len() > 0 && first.as_str().get_char(0) == ':' {
        let rest = message_of(ws, start + 1)?;
        let n = first.unicode_len();
        Ok(Message { prefix: Some(slice_string(first.as_str(), 1, n)), command: rest.command })
    } else {
        let params = combine_params(ws, start);
        match plain_command_of(first.clone(), params) {
            Ok(c) => Ok(Message { prefix: None, command: c }),
            Err(e) => Err(e),
        }
    }
}

impl Message {
    /// Reads a message from whitespace-separated words.
    pub fn from_str(s: &str) -> (r: Result<Message, ParseCommandError>)
        ensures
            match message_of_words(words_from(s@, 0)) {
                Some(m) => r matches Ok(x) && x@ == m,
                None => r is Err,
            },
    {
        let ws = split_words(s);
        assert(strings_view(ws@).skip(0) =~= strings_view(ws@));
        message_of(&ws, 0)
    }

    /// The message as text: `:prefix ` before the command where it has a prefix.
    pub fn to_text(&self) -> (r: String)
        ensures
            r@ == message_line(self@),
    {
        match &self.prefix {
            Some(prefix) => {
                let mut out = owned(":");
                proof {
                    reveal_strlit(":");
                    reveal_strlit(" ");
                }
                out.append(prefix.as_str());
                out.append(" ");
                out.append(self.command.to_text().as_str());
                assert(out@ =~= message_line(self@));
                out
            },
            None => self.command.to_text(),
        }
    }
}

} // verus!
