//! Laws that relate the library's functions to one another.
use vstd::prelude::*;

use crate::command::{
    demote, is_mapped, promote, word_error, word_nick, word_notice, word_pass, word_ping, word_pong,
    word_user, CommandModel,
};
use crate::command::all_params;
use crate::generic::{
    code_text, command_text, first_space, is_code_token, is_command_text, is_middle, is_trailing,
    leading_token, lemma_command_text_token, lemma_first_space, lemma_generic_unique,
    lemma_params_text_plain, lemma_well_formed_text, params_text, spaced, trailing_text,
    well_formed, writable, GenericModel,
};
use crate::message::{
    body, command_part, command_start, lemma_tags_joined_word, lemma_tags_unique, line_text,
    parsed_as, prefix_text, reads_as, section_end, tags_joined, tags_ok, tags_text, MessageModel,
};
use crate::session::{
    bare, newline, next_state, semantic_events, wildcard, EventModel, MotdModel, SessionModel,
};
use crate::error::Error;
use crate::text::{
    decimal, is_line_control, lacks, lemma_decimal_digits,
    all_digits, all_upper, is_digit, is_upper, is_word, lemma_u32_round_trip, no_line_control,
};

verus! {

proof fn lemma_words_differ()
    ensures
        word_pass() != word_nick(),
        word_pass() != word_user(),
        word_pass() != word_ping(),
        word_pass() != word_pong(),
        word_pass() != word_notice(),
        word_pass() != word_error(),
        word_nick() != word_user(),
        word_nick() != word_ping(),
        word_nick() != word_pong(),
        word_nick() != word_notice(),
        word_nick() != word_error(),
        word_user() != word_ping(),
        word_user() != word_pong(),
        word_user() != word_notice(),
        word_user() != word_error(),
        word_ping() != word_pong(),
        word_ping() != word_notice(),
        word_ping() != word_error(),
        word_pong() != word_notice(),
        word_pong() != word_error(),
        word_notice() != word_error(),
{
    assert(word_pass()[0] != word_nick()[0]);
    assert(word_pass()[0] != word_user()[0]);
    assert(word_pass()[1] != word_ping()[1]);
    assert(word_pass()[1] != word_pong()[1]);
    assert(word_pass().len() != word_notice().len());
    assert(word_pass().len() != word_error().len());
    assert(word_nick()[0] != word_user()[0]);
    assert(word_nick()[0] != word_ping()[0]);
    assert(word_nick()[0] != word_pong()[0]);
    assert(word_nick().len() != word_notice().len());
    assert(word_nick().len() != word_error().len());
    assert(word_user()[0] != word_ping()[0]);
    assert(word_user()[0] != word_pong()[0]);
    assert(word_user().len() != word_notice().len());
    assert(word_user().len() != word_error().len());
    assert(word_ping()[1] != word_pong()[1]);
    assert(word_ping().len() != word_notice().len());
    assert(word_ping().len() != word_error().len());
    assert(word_pong().len() != word_notice().len());
    assert(word_pong().len() != word_error().len());
    assert(word_notice().len() != word_error().len());
}

/// Taking a typed command to the generic form and back gives the same
/// command. A generic command comes back unchanged where its code has no
/// typed form.
pub proof fn law_taxonomy_fidelity(c: CommandModel)
    requires
        c matches CommandModel::Generic(g) ==> !is_mapped(g.code),
    ensures
        promote(demote(c)) == Some(c),
{
    lemma_words_differ();
    match c {
        CommandModel::RplISupport(a, caps, m) => {
            assert((seq![a] + caps).skip(1) =~= caps);
        },
        CommandModel::RplLUserOp(a, n, m) => {
            lemma_u32_round_trip(n);
        },
        CommandModel::RplLUserUnknown(a, n, m) => {
            lemma_u32_round_trip(n);
        },
        CommandModel::RplLUserChannels(a, n, m) => {
            lemma_u32_round_trip(n);
        },
        CommandModel::RplLocalUsers(a, u, m) => {
            if let Some((x, y)) = u {
                lemma_u32_round_trip(x);
                lemma_u32_round_trip(y);
            }
        },
        CommandModel::RplGlobalUsers(a, u, m) => {
            if let Some((x, y)) = u {
                lemma_u32_round_trip(x);
                lemma_u32_round_trip(y);
            }
        },
        _ => {},
    }
}

/// What the proof of the round trip works from: tags and prefix are words
/// of the line, the command can be written, its text holds no line control
/// character, and that text reads back as the same command.
spec fn carried(m: MessageModel) -> bool {
    let ct = command_text(demote(m.command));
    &&& (m.tags.len() > 0 ==> tags_ok(m.tags))
    &&& (m.prefix matches Some(p) ==> p.len() > 0 && is_word(p))
    &&& writable(demote(m.command))
    &&& no_line_control(ct)
    &&& reads_as(ct, m.command)
}

/// A field written as the trailing parameter: non-empty, with no carriage
/// return, line feed or NUL.
pub open spec fn trailing_slot(t: Seq<char>) -> bool {
    is_trailing(t) && lacks(t, '\0')
}

/// A field written as the last parameter: a middle parameter, or, where it
/// holds a space, text fit for the trailing parameter.
pub open spec fn last_slot(p: Seq<char>) -> bool {
    if lacks(p, ' ') {
        is_middle(p)
    } else {
        trailing_slot(p)
    }
}

/// Each field of a command fits the place where it is written: middle
/// parameters are non-empty words that do not start with `:`, trailing
/// text is non-empty with no line control character. A generic command is
/// well formed and has a code with no typed form.
pub open spec fn fields_ok(c: CommandModel) -> bool {
    match c {
        CommandModel::Pass(p) => is_middle(p),
        CommandModel::Nick(n) => is_middle(n),
        CommandModel::User(u, r) => is_middle(u) && last_slot(r),
        CommandModel::Ping(x) => trailing_slot(x),
        CommandModel::Pong(x) => trailing_slot(x),
        CommandModel::ErrorMsg(x) => trailing_slot(x),
        CommandModel::Notice(t, x) => is_middle(t) && trailing_slot(x),
        CommandModel::RplWelcome(a, x) => is_middle(a) && trailing_slot(x),
        CommandModel::RplYourHost(a, x) => is_middle(a) && trailing_slot(x),
        CommandModel::RplCreated(a, x) => is_middle(a) && trailing_slot(x),
        CommandModel::RplMyInfo {
            client,
            server_name,
            server_version,
            umodes,
            cmodes,
            cmodes_params,
        } => {
            &&& is_middle(client)
            &&& is_middle(server_name)
            &&& is_middle(server_version)
            &&& is_middle(umodes)
            &&& is_middle(cmodes)
            &&& cmodes_params matches Some(p) ==> is_middle(p)
        },
        CommandModel::RplISupport(a, caps, x) => {
            &&& is_middle(a)
            &&& forall|i: int| 0 <= i < caps.len() ==> is_middle(#[trigger] caps[i])
            &&& trailing_slot(x)
        },
        CommandModel::RplLUserClient(a, x) => is_middle(a) && trailing_slot(x),
        CommandModel::RplLUserOp(a, _, x) => is_middle(a) && trailing_slot(x),
        CommandModel::RplLUserUnknown(a, _, x) => is_middle(a) && trailing_slot(x),
        CommandModel::RplLUserChannels(a, _, x) => is_middle(a) && trailing_slot(x),
        CommandModel::RplLUserMe(a, x) => is_middle(a) && trailing_slot(x),
        CommandModel::RplLocalUsers(a, _, x) => is_middle(a) && trailing_slot(x),
        CommandModel::RplGlobalUsers(a, _, x) => is_middle(a) && trailing_slot(x),
        CommandModel::RplMotdStart(a, x) => is_middle(a) && trailing_slot(x),
        CommandModel::RplMotd(a, x) => is_middle(a) && trailing_slot(x),
        CommandModel::RplEndOfMotd(a, x) => is_middle(a) && trailing_slot(x),
        CommandModel::RplHostHidden(a, h, x) => is_middle(a) && is_middle(h) && trailing_slot(x),
        CommandModel::Generic(g) => {
            &&& well_formed(g)
            &&& !is_mapped(g.code)
            &&& g.trailing matches Some(t) ==> lacks(t, '\0')
        },
    }
}

/// A message that a line can carry: its tags and its prefix are words of
/// the line, and each field of its command fits its place on the line.
pub open spec fn valid_message(m: MessageModel) -> bool {
    &&& (m.tags.len() > 0 ==> tags_ok(m.tags))
    &&& (m.prefix matches Some(p) ==> p.len() > 0 && is_word(p))
    &&& fields_ok(m.command)
}

/// The command as it is read back: a last parameter that holds a space,
/// written after ` :`, comes back as the trailing parameter.
pub open spec fn normal(g: GenericModel) -> GenericModel {
    if g.trailing is None && g.params.len() > 0 && !lacks(g.params.last(), ' ') {
        GenericModel { code: g.code, params: g.params.drop_last(), trailing: Some(g.params.last()) }
    } else {
        g
    }
}

/// The text of a command starts with a capital or a digit.
proof fn lemma_command_text_start(ct: Seq<char>)
    requires
        is_command_text(ct),
    ensures
        ct.len() > 0,
        is_upper(ct[0]) || is_digit(ct[0]),
{
    lemma_command_text_token(ct);
    let t = leading_token(ct);
    assert(t[0] == ct[0]);
    if t.len() > 0 && all_upper(t) {
        assert(is_upper(t[0]));
    } else {
        assert(all_digits(t));
        assert(is_digit(t[0]));
    }
}

/// The body of the line of a valid message holds no line control character.
proof fn lemma_line_framed(m: MessageModel)
    requires
        carried(m),
    ensures
        body(line_text(m)) == tags_text(m.tags) + prefix_text(m.prefix) + command_text(
            demote(m.command),
        ),
        crate::message::framed(line_text(m)),
{
    let s = line_text(m);
    let ct = command_text(demote(m.command));
    let tt = tags_text(m.tags);
    let pt = prefix_text(m.prefix);
    let b = body(s);
    assert(b =~= tt + pt + ct);
    if m.tags.len() > 0 {
        lemma_tags_joined_word(m.tags);
    }
    assert forall|i: int| 0 <= i < b.len() implies !crate::text::is_line_control(#[trigger] b[i]) by {
        if i < tt.len() {
            if m.tags.len() > 0 && 0 < i < tt.len() - 1 {
                assert(b[i] == tags_joined(m.tags)[i - 1]);
            }
        } else if i < tt.len() + pt.len() {
            if let Some(p) = m.prefix {
                let j = i - tt.len();
                if 0 < j < pt.len() - 1 {
                    assert(b[i] == p[j - 1]);
                }
            }
        } else {
            assert(b[i] == ct[i - tt.len() - pt.len()]);
        }
    }
}

/// The tag section of the line of a valid message ends where its tags do.
proof fn lemma_line_tags(m: MessageModel)
    requires
        carried(m),
    ensures
        section_end(body(line_text(m)), 0, '@') == Some(tags_text(m.tags).len() as int),
        m.tags.len() > 0 ==> body(line_text(m)).subrange(1, tags_text(m.tags).len() - 1)
            == tags_joined(m.tags),
{
    let ct = command_text(demote(m.command));
    let tt = tags_text(m.tags);
    let pt = prefix_text(m.prefix);
    lemma_line_framed(m);
    assert(is_command_text(ct));
    lemma_command_text_start(ct);
    let b = body(line_text(m));
    assert(b.skip(0) =~= b);
    if m.tags.len() > 0 {
        lemma_tags_joined_word(m.tags);
        let j = tags_joined(m.tags);
        assert forall|i: int| 0 <= i < 1 + j.len() implies b[i] != ' ' by {
            if i > 0 {
                assert(b[i] == j[i - 1]);
            }
        }
        assert(b[1 + j.len() as int] == ' ');
        lemma_first_space(b, 1 + j.len() as int);
        assert(b.subrange(1, tt.len() - 1) =~= j);
    } else {
        if pt.len() > 0 {
            assert(b[0] == ':');
        } else {
            assert(b[0] == ct[0]);
        }
    }
}

/// The prefix section of the line of a valid message ends where its prefix does.
proof fn lemma_line_prefix(m: MessageModel)
    requires
        carried(m),
    ensures
        ({
            let a = tags_text(m.tags).len() as int;
            let p_end = a + prefix_text(m.prefix).len();
            &&& section_end(body(line_text(m)), a, ':') == Some(p_end)
            &&& m.prefix matches Some(p) ==> body(line_text(m)).subrange(a + 1, p_end - 1) == p
        }),
{
    let ct = command_text(demote(m.command));
    let tt = tags_text(m.tags);
    let pt = prefix_text(m.prefix);
    lemma_line_framed(m);
    assert(is_command_text(ct));
    lemma_command_text_start(ct);
    let b = body(line_text(m));
    let a = tt.len() as int;
    let r = b.skip(a);
    assert(r =~= pt + ct);
    let p_end = a + pt.len();
    if let Some(p) = m.prefix {
        assert forall|i: int| 0 <= i < 1 + p.len() implies r[i] != ' ' by {
            if i > 0 {
                assert(r[i] == p[i - 1]);
            }
        }
        assert(r[1 + p.len() as int] == ' ');
        lemma_first_space(r, 1 + p.len() as int);
        assert(b.subrange(a + 1, p_end - 1) =~= p);
    } else {
        assert(r[0] == ct[0]);
    }
}

proof fn lemma_words_upper()
    ensures
        all_upper(word_pass()),
        all_upper(word_nick()),
        all_upper(word_user()),
        all_upper(word_ping()),
        all_upper(word_pong()),
        all_upper(word_notice()),
        all_upper(word_error()),
{
    assert forall|i: int| 0 <= i < 4 implies is_upper(#[trigger] word_pass()[i]) by {}
    assert forall|i: int| 0 <= i < 4 implies is_upper(#[trigger] word_nick()[i]) by {}
    assert forall|i: int| 0 <= i < 4 implies is_upper(#[trigger] word_user()[i]) by {}
    assert forall|i: int| 0 <= i < 4 implies is_upper(#[trigger] word_ping()[i]) by {}
    assert forall|i: int| 0 <= i < 4 implies is_upper(#[trigger] word_pong()[i]) by {}
    assert forall|i: int| 0 <= i < 6 implies is_upper(#[trigger] word_notice()[i]) by {}
    assert forall|i: int| 0 <= i < 5 implies is_upper(#[trigger] word_error()[i]) by {}
}

/// A number written in decimal is a middle parameter.
proof fn lemma_decimal_middle(n: nat)
    ensures
        is_middle(decimal(n)),
{
    lemma_decimal_digits(n);
    let d = decimal(n);
    assert forall|i: int| 0 <= i < d.len() implies #[trigger] d[i] != ' ' && !is_line_control(d[i]) by {
        assert(is_digit(d[i]));
    }
    assert(is_digit(d[0]));
}

/// Fields that fit their places give a well-formed command text that
/// reads back as the same command.
proof fn lemma_fields_wire(c: CommandModel)
    requires
        fields_ok(c),
    ensures
        writable(demote(c)),
        well_formed(normal(demote(c))),
        command_text(normal(demote(c))) == command_text(demote(c)),
        promote(normal(demote(c))) == Some(c),
        normal(demote(c)).trailing matches Some(t) ==> lacks(t, '\0'),
{
    lemma_words_upper();
    let g = demote(c);
    let zero = seq!['0'];
    let star = seq!['*'];
    assert(is_middle(zero));
    assert(is_middle(star));
    match c {
        CommandModel::User(u, r) => {
            if lacks(r, ' ') {
                assert(g.params.last() == r);
                assert(normal(g) == g);
                law_taxonomy_fidelity(c);
                assert forall|i: int| 0 <= i < g.params.len() implies is_middle(#[trigger] g.params[i]) by {}
            } else {
                let h = normal(g);
                let front = seq![u, zero, star];
                assert(g.params.last() == r);
                assert(g.params.drop_last() =~= front);
                assert(h.params == front);
                lemma_words_differ();
                assert(all_params(h) =~= seq![u, zero, star, r]);
                assert forall|i: int| 0 <= i < front.len() implies is_middle(#[trigger] front[i]) by {}
                assert forall|i: int| 0 <= i < front.len() implies lacks(#[trigger] front[i], ' ') by {
                    assert(is_middle(front[i]));
                }
                lemma_params_text_plain(front);
                assert(params_text(g.params) == spaced(front) + (seq![' ', ':'] + r));
                assert(command_text(h) =~= command_text(g));
            }
        },
        CommandModel::RplISupport(a, caps, x) => {
            assert(normal(g) == g);
            law_taxonomy_fidelity(c);
            assert forall|i: int| 0 <= i < g.params.len() implies is_middle(#[trigger] g.params[i]) by {
                if i > 0 {
                    assert(g.params[i] == caps[i - 1]);
                }
            }
        },
        CommandModel::RplLUserOp(a, n, x) => {
            lemma_decimal_middle(n as nat);
            law_taxonomy_fidelity(c);
            assert forall|i: int| 0 <= i < g.params.len() implies is_middle(#[trigger] g.params[i]) by {}
        },
        CommandModel::RplLUserUnknown(a, n, x) => {
            lemma_decimal_middle(n as nat);
            law_taxonomy_fidelity(c);
            assert forall|i: int| 0 <= i < g.params.len() implies is_middle(#[trigger] g.params[i]) by {}
        },
        CommandModel::RplLUserChannels(a, n, x) => {
            lemma_decimal_middle(n as nat);
            law_taxonomy_fidelity(c);
            assert forall|i: int| 0 <= i < g.params.len() implies is_middle(#[trigger] g.params[i]) by {}
        },
        CommandModel::RplLocalUsers(a, us, x) => {
            if let Some((cur, max)) = us {
                lemma_decimal_middle(cur as nat);
                lemma_decimal_middle(max as nat);
            }
            law_taxonomy_fidelity(c);
            assert forall|i: int| 0 <= i < g.params.len() implies is_middle(#[trigger] g.params[i]) by {}
        },
        CommandModel::RplGlobalUsers(a, us, x) => {
            if let Some((cur, max)) = us {
                lemma_decimal_middle(cur as nat);
                lemma_decimal_middle(max as nat);
            }
            law_taxonomy_fidelity(c);
            assert forall|i: int| 0 <= i < g.params.len() implies is_middle(#[trigger] g.params[i]) by {}
        },
        CommandModel::Generic(h) => {
            if h.params.len() > 0 {
                assert(is_middle(h.params.last()));
            }
            assert(normal(g) == g);
            law_taxonomy_fidelity(c);
        },
        _ => {
            if g.params.len() > 0 && g.trailing is None {
                assert(is_middle(g.params.last()));
            }
            assert(normal(g) == g);
            law_taxonomy_fidelity(c);
            assert forall|i: int| 0 <= i < g.params.len() implies is_middle(#[trigger] g.params[i]) by {}
        },
    }
    assert forall|i: int| 0 <= i < crate::generic::middle_count(g) implies lacks(#[trigger] g.params[i], ' ') by {
        if i < g.params.len() - 1 || g.trailing is Some {
            assert(is_middle(normal(g).params[i]));
        }
    }
}

/// Words joined after spaces hold no line control character.
proof fn lemma_spaced_clean(ps: Seq<Seq<char>>)
    requires
        forall|i: int| 0 <= i < ps.len() ==> is_word(#[trigger] ps[i]),
    ensures
        no_line_control(spaced(ps)),
    decreases ps.len(),
{
    if ps.len() > 0 {
        lemma_spaced_clean(ps.drop_last());
        let a = spaced(ps.drop_last());
        let l = ps.last();
        let x = spaced(ps);
        assert(is_word(l));
        assert(x =~= a + (seq![' '] + l));
        assert forall|i: int| 0 <= i < x.len() implies !is_line_control(#[trigger] x[i]) by {
            if i < a.len() {
                assert(x[i] == a[i]);
            } else if i > a.len() {
                assert(x[i] == l[i - a.len() - 1]);
            }
        }
    }
}

/// The text of a well-formed command whose trailing part holds no NUL
/// holds no line control character.
proof fn lemma_wire_clean(g: GenericModel)
    requires
        well_formed(g),
        g.trailing matches Some(t) ==> lacks(t, '\0'),
    ensures
        no_line_control(command_text(g)),
{
    lemma_well_formed_text(g);
    let code = code_text(g.code);
    assert forall|i: int| 0 <= i < code.len() implies !is_line_control(#[trigger] code[i]) by {
        if code.len() > 0 && all_upper(code) {
            assert(is_upper(code[i]));
        } else {
            assert(is_digit(code[i]));
        }
    }
    assert forall|i: int| 0 <= i < g.params.len() implies is_word(#[trigger] g.params[i]) by {
        assert(is_middle(g.params[i]));
    }
    lemma_spaced_clean(g.params);
    let sp = spaced(g.params);
    let tt = trailing_text(g.trailing);
    assert forall|i: int| 0 <= i < tt.len() implies !is_line_control(#[trigger] tt[i]) by {
        if let Some(t) = g.trailing {
            if i >= 2 {
                assert(tt[i] == t[i - 2]);
            }
        }
    }
    let x = command_text(g);
    assert(x =~= code + sp + tt);
    assert forall|i: int| 0 <= i < x.len() implies !is_line_control(#[trigger] x[i]) by {
        if i < code.len() {
            assert(x[i] == code[i]);
        } else if i < code.len() + sp.len() {
            assert(x[i] == sp[i - code.len()]);
        } else {
            assert(x[i] == tt[i - code.len() - sp.len()]);
        }
    }
}

/// Writing a valid message and reading the line back gives the same
/// message: the line reads as that message and as no other.
pub proof fn law_round_trip(m: MessageModel)
    requires
        valid_message(m),
    ensures
        writable(demote(m.command)),
        command_start(line_text(m)) is Some,
        first_space(command_part(line_text(m))) > 0,
        is_code_token(leading_token(command_part(line_text(m)))),
        is_command_text(command_part(line_text(m))),
        parsed_as(line_text(m), m),
        forall|m2: MessageModel| parsed_as(line_text(m), m2) ==> m2 == m,
{
    lemma_fields_wire(m.command);
    let g0 = normal(demote(m.command));
    lemma_wire_clean(g0);
    assert(reads_as(command_text(demote(m.command)), m.command));
    assert(carried(m));
    let s = line_text(m);
    let ct = command_text(demote(m.command));
    let tt = tags_text(m.tags);
    let pt = prefix_text(m.prefix);
    let g1 = choose|g: GenericModel|
        well_formed(g) && command_text(g) == ct && promote(g) == Some(m.command);
    assert(is_command_text(ct));
    lemma_command_text_token(ct);
    lemma_line_framed(m);
    lemma_line_tags(m);
    lemma_line_prefix(m);
    let b = body(s);
    let p_end = (tt.len() + pt.len()) as int;
    assert(command_start(s) == Some(p_end));
    assert(command_part(s) =~= ct);
    assert(parsed_as(s, m));
    assert forall|m2: MessageModel| parsed_as(s, m2) implies m2 == m by {
        let g2 = choose|g: GenericModel|
            well_formed(g) && command_text(g) == ct && promote(g) == Some(m2.command);
        lemma_generic_unique(g1, g2);
        if m.tags.len() > 0 {
            lemma_tags_unique(m.tags, m2.tags);
        } else {
            assert(m2.tags =~= m.tags);
        }
    }
}

/// A notice addressed to neither this client's nickname nor `*` changes
/// nothing and gives no event beyond its raw delivery.
pub proof fn law_target_filtering(st: SessionModel, m: MessageModel)
    requires
        m.command matches CommandModel::Notice(t, _) && t != st.nickname && t != wildcard(),
    ensures
        semantic_events(st, m) == Seq::<EventModel>::empty(),
        next_state(st, m.command) == st,
{
}

/// The start, a line and the end of the message of the day, addressed to
/// this client, build its text line by line and give one `Motd` event, at
/// the end.
pub proof fn law_motd_accumulation(
    st: SessionModel,
    first: Seq<char>,
    middle: Seq<char>,
    last: Seq<char>,
)
    requires
        st.motd is Empty,
    ensures
        ({
            let nick = st.nickname;
            let c1 = CommandModel::RplMotdStart(nick, first);
            let c2 = CommandModel::RplMotd(nick, middle);
            let c3 = CommandModel::RplEndOfMotd(nick, last);
            let s1 = next_state(st, c1);
            let s2 = next_state(s1, c2);
            let s3 = next_state(s2, c3);
            &&& s1.motd == MotdModel::Building(first + newline())
            &&& s2.motd == MotdModel::Building(first + newline() + middle + newline())
            &&& s3.motd == MotdModel::Done(first + newline() + middle + newline() + last)
            &&& semantic_events(st, bare(c1)) == Seq::<EventModel>::empty()
            &&& semantic_events(s1, bare(c2)) == Seq::<EventModel>::empty()
            &&& semantic_events(s2, bare(c3)) == seq![EventModel::Motd]
        }),
{
}

/// A message-of-the-day line before its start is reported as out of
/// order, and leaves the state as it was.
pub proof fn law_motd_out_of_order(st: SessionModel, m: MessageModel)
    requires
        st.motd is Empty,
        m.command matches CommandModel::RplMotd(t, _) && t == st.nickname,
    ensures
        semantic_events(st, m) == seq![EventModel::Failure(Error::MotdOutOfOrder)],
        next_state(st, m.command) == st,
{
}

} // verus!
