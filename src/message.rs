//! A whole protocol line: tags, prefix and command.
use vstd::prelude::*;

use crate::command::{demote, promote, CommandModel, IrcCommand};
use crate::error::Error;
use crate::generic::{
    command_text, first_space, is_code_token, is_command_text, leading_token,
    lemma_command_text_token, lemma_first_space, lemma_generic_unique, opt_view, well_formed,
    writable, GenericIrcCommand, GenericModel,
};
use crate::text::{chars_of, is_line_control, is_word, lacks, no_line_control, owned, slice_string};

verus! {

/// A tag: a key and, where `=` follows it, a value.
pub type Tag = (String, Option<String>);

/// A parsed protocol line.
#[derive(Debug, PartialEq, Clone)]
pub struct IrcMessage {
    pub tags: Vec<Tag>,
    pub prefix: Option<String>,
    pub command: IrcCommand,
}

pub type TagModel = (Seq<char>, Option<Seq<char>>);

/// What a line is, as characters.
pub struct MessageModel {
    pub tags: Seq<TagModel>,
    pub prefix: Option<Seq<char>>,
    pub command: CommandModel,
}

pub open spec fn tag_view(t: Tag) -> TagModel {
    (t.0@, opt_view(t.1))
}

pub open spec fn tags_view(ts: Seq<Tag>) -> Seq<TagModel> {
    ts.map_values(|t: Tag| tag_view(t))
}

impl View for IrcMessage {
    type V = MessageModel;

    open spec fn view(&self) -> MessageModel {
        MessageModel {
            tags: tags_view(self.tags@),
            prefix: opt_view(self.prefix),
            command: self.command@,
        }
    }
}

// ---- The wire text of a line ----

pub open spec fn tag_text(t: TagModel) -> Seq<char> {
    match t.1 {
        Some(v) => t.0 + seq!['='] + v,
        None => t.0,
    }
}

/// The tags joined by `;`.
pub open spec fn tags_joined(ts: Seq<TagModel>) -> Seq<char>
    decreases ts.len(),
{
    if ts.len() == 0 {
        Seq::empty()
    } else if ts.len() == 1 {
        tag_text(ts[0])
    } else {
        tags_joined(ts.drop_last()) + seq![';'] + tag_text(ts.last())
    }
}

/// `@`, the tags and a space; nothing where there are none.
pub open spec fn tags_text(ts: Seq<TagModel>) -> Seq<char> {
    if ts.len() == 0 {
        Seq::empty()
    } else {
        seq!['@'] + tags_joined(ts) + seq![' ']
    }
}

/// `:`, the prefix and a space; nothing where there is none.
pub open spec fn prefix_text(p: Option<Seq<char>>) -> Seq<char> {
    match p {
        Some(p) => seq![':'] + p + seq![' '],
        None => Seq::empty(),
    }
}

pub open spec fn crlf() -> Seq<char> {
    seq!['\r', '\n']
}

/// The full line of a message, line end included.
pub open spec fn line_text(m: MessageModel) -> Seq<char> {
    tags_text(m.tags) + prefix_text(m.prefix) + command_text(demote(m.command)) + crlf()
}

// ---- What a line must look like ----

/// A tag as the grammar reads it back: its key holds no `=` or `;`, its
/// value no `;`, and neither a space or a line control character.
pub open spec fn tag_ok(t: TagModel) -> bool {
    &&& is_word(t.0)
    &&& lacks(t.0, ';')
    &&& lacks(t.0, '=')
    &&& t.1 matches Some(v) ==> is_word(v) && lacks(v, ';')
}

pub open spec fn tags_ok(ts: Seq<TagModel>) -> bool {
    &&& ts.len() > 0
    &&& tags_joined(ts).len() > 0
    &&& forall|i: int| 0 <= i < ts.len() ==> tag_ok(#[trigger] ts[i])
}

/// Ends with CR LF, and holds no other CR, LF or NUL.
pub open spec fn framed(s: Seq<char>) -> bool {
    &&& s.len() >= 2
    &&& s[s.len() - 2] == '\r'
    &&& s[s.len() - 1] == '\n'
    &&& no_line_control(body(s))
}

pub open spec fn body(s: Seq<char>) -> Seq<char> {
    s.take(s.len() - 2)
}

/// Where a section that starts at `from` with `mark` ends: just past the
/// space that closes it. `Some(from)` where there is no such section,
/// `None` where it is empty or not closed.
pub open spec fn section_end(b: Seq<char>, from: int, mark: char) -> Option<int> {
    let r = b.skip(from);
    if r.len() > 0 && r[0] == mark {
        let e = first_space(r);
        if 1 < e < r.len() {
            Some(from + e + 1)
        } else {
            None
        }
    } else {
        Some(from)
    }
}

/// Where the command begins in the body of a framed line, past the tag and
/// prefix sections; `None` where the line is not framed or a section is malformed.
pub open spec fn command_start(s: Seq<char>) -> Option<int> {
    if !framed(s) {
        None
    } else {
        match section_end(body(s), 0, '@') {
            Some(a) => section_end(body(s), a, ':'),
            None => None,
        }
    }
}

/// The command text of a line whose head is well formed.
pub open spec fn command_part(s: Seq<char>) -> Seq<char> {
    body(s).skip(command_start(s)->0)
}

/// The typed command that a command text gives.
pub open spec fn reads_as(c: Seq<char>, cmd: CommandModel) -> bool {
    exists|g| well_formed(g) && command_text(g) == c && promote(g) == Some(cmd)
}

/// The tags, the prefix and the command of `m` are those that the line `s` holds.
pub open spec fn parsed_as(s: Seq<char>, m: MessageModel) -> bool {
    let b = body(s);
    let a = section_end(b, 0, '@')->0;
    let p = command_start(s)->0;
    &&& command_start(s) is Some
    &&& (a == 0 ==> m.tags.len() == 0)
    &&& (a > 0 ==> tags_ok(m.tags) && tags_joined(m.tags) == b.subrange(1, a - 1))
    &&& (p == a ==> m.prefix is None)
    &&& (p > a ==> m.prefix == Some(b.subrange(a + 1, p - 1)))
    &&& reads_as(command_part(s), m.command)
}

/// A line that reads as a message gets past every check of the parser.
pub proof fn lemma_parsed_as_means_ok(s: Seq<char>, m: MessageModel)
    requires
        parsed_as(s, m),
    ensures
        command_start(s) is Some,
        first_space(command_part(s)) > 0,
        is_code_token(leading_token(command_part(s))),
        is_command_text(command_part(s)),
        exists|cmd: CommandModel| reads_as(command_part(s), cmd),
{
    let c = command_part(s);
    let g = choose|g: GenericModel| well_formed(g) && command_text(g) == c && promote(g) == Some(m.command);
    assert(is_command_text(c));
    lemma_command_text_token(c);
}

/// A tag's text holds no `;`, and no space or line control character.
pub proof fn lemma_tag_text_word(t: TagModel)
    requires
        tag_ok(t),
    ensures
        lacks(tag_text(t), ';'),
        is_word(tag_text(t)),
{
    let x = tag_text(t);
    if let Some(v) = t.1 {
        assert forall|i: int| 0 <= i < x.len() implies x[i] != ';' && x[i] != ' ' && !is_line_control(x[i]) by {
            if i < t.0.len() {
                assert(x[i] == t.0[i]);
            } else if i > t.0.len() {
                assert(x[i] == v[i - t.0.len() - 1]);
            }
        }
    }
}

/// Joined tags hold no space or line control character.
pub proof fn lemma_tags_joined_word(ts: Seq<TagModel>)
    requires
        forall|i: int| 0 <= i < ts.len() ==> tag_ok(#[trigger] ts[i]),
    ensures
        is_word(tags_joined(ts)),
    decreases ts.len(),
{
    if ts.len() == 1 {
        lemma_tag_text_word(ts[0]);
    } else if ts.len() > 1 {
        lemma_tags_joined_word(ts.drop_last());
        lemma_tag_text_word(ts.last());
        let a = tags_joined(ts.drop_last());
        let b = tag_text(ts.last());
        let x = tags_joined(ts);
        assert(x =~= a + seq![';'] + b);
        assert forall|i: int| 0 <= i < x.len() implies #[trigger] x[i] != ' ' && !is_line_control(x[i]) by {
            if i < a.len() {
                assert(x[i] == a[i]);
            } else if i > a.len() {
                assert(x[i] == b[i - a.len() - 1]);
            }
        }
    }
}

/// A tag is determined by its text.
pub proof fn lemma_tag_unique(t1: TagModel, t2: TagModel)
    requires
        tag_ok(t1),
        tag_ok(t2),
        tag_text(t1) == tag_text(t2),
    ensures
        t1 == t2,
{
    let x = tag_text(t1);
    let k1 = t1.0.len() as int;
    let k2 = t2.0.len() as int;
    match (t1.1, t2.1) {
        (Some(v1), Some(v2)) => {
            if k1 < k2 {
                assert(x[k1] == '=');
                assert(x[k1] == t2.0[k1]);
            } else if k2 < k1 {
                assert(x[k2] == '=');
                assert(x[k2] == t1.0[k2]);
            }
            assert(t1.0 =~= x.take(k1));
            assert(t2.0 =~= x.take(k2));
            assert(v1 =~= x.skip(k1 + 1));
            assert(v2 =~= x.skip(k2 + 1));
        },
        (Some(v1), None) => {
            assert(x[k1] == '=');
            assert(x[k1] == t2.0[k1]);
        },
        (None, Some(v2)) => {
            assert(x[k2] == '=');
            assert(x[k2] == t1.0[k2]);
        },
        (None, None) => {},
    }
}

/// A non-empty list of tags is determined by its joined text.
pub proof fn lemma_tags_unique(a: Seq<TagModel>, b: Seq<TagModel>)
    requires
        a.len() > 0,
        b.len() > 0,
        forall|i: int| 0 <= i < a.len() ==> tag_ok(#[trigger] a[i]),
        forall|i: int| 0 <= i < b.len() ==> tag_ok(#[trigger] b[i]),
        tags_joined(a) == tags_joined(b),
    ensures
        a == b,
    decreases a.len() + b.len(),
{
    let x = tags_joined(a);
    if a.len() == 1 && b.len() == 1 {
        lemma_tag_unique(a[0], b[0]);
        assert(a =~= b);
    } else if a.len() == 1 || b.len() == 1 {
        let (one, many) = if a.len() == 1 {
            (a, b)
        } else {
            (b, a)
        };
        lemma_tag_text_word(one[0]);
        let p = tags_joined(many.drop_last());
        assert(x == p + seq![';'] + tag_text(many.last()));
        assert(x[p.len() as int] == ';');
    } else {
        let pa = tags_joined(a.drop_last());
        let pb = tags_joined(b.drop_last());
        let ta = tag_text(a.last());
        let tb = tag_text(b.last());
        lemma_tag_text_word(a.last());
        lemma_tag_text_word(b.last());
        assert(x =~= pa + seq![';'] + ta);
        assert(x =~= pb + seq![';'] + tb);
        if ta.len() < tb.len() {
            let i = x.len() - ta.len() - 1;
            assert(x[i] == ';');
            assert(x[i] == tb[i - pb.len() - 1]);
        } else if tb.len() < ta.len() {
            let i = x.len() - tb.len() - 1;
            assert(x[i] == ';');
            assert(x[i] == ta[i - pa.len() - 1]);
        }
        assert(ta =~= x.skip(pa.len() as int + 1));
        assert(tb =~= x.skip(pb.len() as int + 1));
        assert(pa =~= x.take(pa.len() as int));
        assert(pb =~= x.take(pb.len() as int));
        lemma_tag_unique(a.last(), b.last());
        lemma_tags_unique(a.drop_last(), b.drop_last());
        assert(a =~= a.drop_last().push(a.last()));
        assert(b =~= b.drop_last().push(b.last()));
    }
}

// ---- Executable parts ----

/// The first space of `cs[from..to]`, or `to`.
fn space_from(cs: &Vec<char>, from: usize, to: usize) -> (e: usize)
    requires
        from <= to <= cs.len(),
    ensures
        from <= e <= to,
        forall|j: int| from <= j < e ==> cs@[j] != ' ',
        e < to ==> cs@[e as int] == ' ',
{
    let mut e = from;
    while e < to && cs[e] != ' '
        invariant
            from <= e <= to,
            to <= cs.len(),
            forall|j: int| from <= j < e ==> cs@[j] != ' ',
        decreases to - e,
    {
        e = e + 1;
    }
    e
}

proof fn lemma_section_end(b: Seq<char>, from: int, e: int)
    requires
        0 <= from < e <= b.len(),
        forall|j: int| from <= j < e ==> b[j] != ' ',
        e == b.len() || b[e] == ' ',
    ensures
        first_space(b.skip(from)) == e - from,
{
    let r = b.skip(from);
    assert forall|j: int| 0 <= j < e - from implies r[j] != ' ' by {
        assert(r[j] == b[from + j]);
    }
    if e < b.len() {
        assert(r[e - from] == b[e]);
    }
    lemma_first_space(r, e - from);
}

/// Splits a tag section at `;`, and each piece at its first `=`.
fn parse_tags(s: &str, cs: &Vec<char>, from: usize, to: usize) -> (r: Vec<Tag>)
    requires
        cs@ == s@,
        1 <= from < to <= s@.len(),
        is_word(s@.subrange(from as int, to as int)),
    ensures
        tags_ok(tags_view(r@)),
        tags_joined(tags_view(r@)) == s@.subrange(from as int, to as int),
{
    let ghost ss = s@;
    let mut tags: Vec<Tag> = Vec::new();
    let mut start: usize = from;
    let mut finished = false;
    while !finished
        invariant
            cs@ == ss,
            ss == s@,
            1 <= from <= start <= to <= ss.len(),
            is_word(ss.subrange(from as int, to as int)),
            !finished ==> (tags.len() == 0 <==> start == from),
            !finished && tags.len() > 0 ==> start > from && ss.subrange(from as int, start as int)
                == tags_joined(tags_view(tags@)) + seq![';'],
            finished ==> tags.len() > 0 && ss.subrange(from as int, to as int) == tags_joined(
                tags_view(tags@),
            ),
            forall|i: int| 0 <= i < tags.len() ==> tag_ok(#[trigger] tags_view(tags@)[i]),
        decreases to - start + (if finished {
            0int
        } else {
            1int
        }),
    {
        let mut j = start;
        while j < to && cs[j] != ';'
            invariant
                start <= j <= to,
                to <= cs.len(),
                forall|m: int| start <= m < j ==> cs@[m] != ';',
            decreases to - j,
        {
            j = j + 1;
        }
        let mut k = start;
        while k < j && cs[k] != '='
            invariant
                start <= k <= j,
                j <= cs.len(),
                forall|m: int| start <= m < k ==> cs@[m] != '=',
            decreases j - k,
        {
            k = k + 1;
        }
        let key = slice_string(s, start, k);
        let value = if k < j {
            Some(slice_string(s, k + 1, j))
        } else {
            None
        };
        let tag: Tag = (key, value);
        let ghost piece = ss.subrange(start as int, j as int);
        proof {
            assert forall|m: int| start <= m < to implies #[trigger] ss[m] != ' ' && !is_line_control(
                ss[m],
            ) by {
                assert(ss.subrange(from as int, to as int)[m - from] == ss[m]);
            }
            assert(tag_text(tag_view(tag)) =~= piece);
            assert(tag_ok(tag_view(tag)));
        }
        let ghost old_view = tags_view(tags@);
        tags.push(tag);
        proof {
            assert(tags_view(tags@) =~= old_view.push(tag_view(tag)));
            assert(tags_view(tags@).drop_last() =~= old_view);
            if old_view.len() == 0 {
                assert(tags_joined(tags_view(tags@)) == piece);
            } else {
                assert(tags_joined(tags_view(tags@)) == tags_joined(old_view) + seq![';'] + piece);
            }
            assert(ss.subrange(from as int, j as int) =~= ss.subrange(from as int, start as int)
                + piece) by {
                if old_view.len() == 0 {
                    assert(start == from);
                }
            }
            assert(ss.subrange(from as int, j as int) == tags_joined(tags_view(tags@)));
        }
        if j < to {
            proof {
                assert(ss.subrange(from as int, j as int + 1) =~= ss.subrange(from as int, j as int)
                    + seq![';']);
            }
            start = j + 1;
        } else {
            finished = true;
        }
    }
    tags
}

/// The tag and prefix sections of a line, and where its command begins.
fn parse_head(s: &str, cs: &Vec<char>) -> (r: Result<(Vec<Tag>, Option<String>, usize), Error>)
    requires
        cs@ == s@,
    ensures
        match command_start(s@) {
            None => r matches Err(Error::NoMatch(x)) && x@ == s@,
            Some(p) => r matches Ok((tags, prefix, q)) && q == p && p <= body(s@).len() && {
                let b = body(s@);
                let a = section_end(b, 0, '@')->0;
                &&& (a == 0 ==> tags.len() == 0)
                &&& (a > 0 ==> tags_ok(tags_view(tags@)) && tags_joined(tags_view(tags@))
                    == b.subrange(1, a - 1))
                &&& (p == a ==> prefix is None)
                &&& (p > a ==> opt_view(prefix) == Some(b.subrange(a + 1, p - 1)))
            },
        },
{
    let ghost ss = s@;
    let n = cs.len();
    if n < 2 || cs[n - 2] != '\r' || cs[n - 1] != '\n' {
        return Err(Error::NoMatch(owned(s)));
    }
    let b = n - 2;
    let ghost bb = body(ss);
    let mut i: usize = 0;
    while i < b
        invariant
            cs@ == ss,
            ss == s@,
            b == n - 2,
            n == ss.len(),
            bb == body(ss),
            bb == ss.take(b as int),
            i <= b,
            forall|j: int| 0 <= j < i ==> !is_line_control(#[trigger] bb[j]),
        decreases b - i,
    {
        if cs[i] == '\r' || cs[i] == '\n' || cs[i] == '\0' {
            assert(bb[i as int] == ss[i as int]);
            assert(!no_line_control(bb));
            return Err(Error::NoMatch(owned(s)));
        }
        i = i + 1;
    }
    assert(framed(ss));
    let mut pos: usize = 0;
    let mut tags: Vec<Tag> = Vec::new();
    if b > 0 && cs[0] == '@' {
        let e = space_from(cs, 0, b);
        proof {
            assert(bb.skip(0) =~= bb);
            if e > 0 {
                lemma_section_end(bb, 0, e as int);
            } else {
                lemma_first_space(bb, 0);
            }
        }
        if e >= b || e <= 1 {
            return Err(Error::NoMatch(owned(s)));
        }
        proof {
            assert forall|m: int| 0 <= m < e - 1 implies #[trigger] ss.subrange(1, e as int)[m]
                != ' ' && !is_line_control(ss.subrange(1, e as int)[m]) by {
                assert(bb[m + 1] == ss[m + 1]);
            }
        }
        tags = parse_tags(s, cs, 1, e);
        pos = e + 1;
        assert(bb.subrange(1, e as int) =~= ss.subrange(1, e as int));
    } else {
        assert(bb.skip(0) =~= bb);
    }
    assert(section_end(bb, 0, '@') == Some(pos as int));
    let mut prefix: Option<String> = None;
    if pos < b && cs[pos] == ':' {
        let e = space_from(cs, pos, b);
        proof {
            assert(bb.skip(pos as int)[0] == bb[pos as int]);
            if e > pos {
                lemma_section_end(bb, pos as int, e as int);
            } else {
                assert(bb.skip(pos as int)[0] == ' ');
                lemma_first_space(bb.skip(pos as int), 0);
            }
        }
        if e >= b || e <= pos + 1 {
            return Err(Error::NoMatch(owned(s)));
        }
        prefix = Some(slice_string(s, pos + 1, e));
        assert(bb.subrange(pos + 1, e as int) =~= ss.subrange(pos + 1, e as int));
        pos = e + 1;
    } else {
        proof {
            if pos < b {
                assert(bb.skip(pos as int)[0] == bb[pos as int]);
            }
        }
    }
    assert(command_start(ss) == Some(pos as int));
    Ok((tags, prefix, pos))
}

impl IrcMessage {
    /// Reads one line, CR LF included: optional tags, optional prefix, then
    /// the command, typed where its code is known.
    pub fn parse(s: &str) -> (r: Result<IrcMessage, Error>)
        ensures
            match command_start(s@) {
                None => r matches Err(Error::NoMatch(x)) && x@ == s@,
                Some(p) => {
                    let c = command_part(s@);
                    if first_space(c) == 0 {
                        r matches Err(Error::NoCommand(x)) && x@ == s@
                    } else if !is_code_token(leading_token(c)) {
                        r == Err::<IrcMessage, Error>(Error::Invalid)
                    } else if !is_command_text(c) {
                        r matches Err(Error::NoMatch(x)) && x@ == s@
                    } else {
                        &&& r is Ok <==> exists|cmd: CommandModel| reads_as(c, cmd)
                        &&& r is Err ==> r == Err::<IrcMessage, Error>(Error::Invalid)
                        &&& r matches Ok(m) ==> parsed_as(s@, m@)
                    }
                },
            },
    {
        let cs = chars_of(s);
        let (tags, prefix, pos) = match parse_head(s, &cs) {
            Ok(h) => h,
            Err(e) => {
                return Err(e);
            },
        };
        let b = cs.len() - 2;
        let c = slice_string(s, pos, b);
        assert(c@ =~= command_part(s@));
        let g = match GenericIrcCommand::parse(c.as_str()) {
            Ok(g) => g,
            Err(Error::NoCommand(_)) => {
                return Err(Error::NoCommand(owned(s)));
            },
            Err(Error::NoMatch(_)) => {
                return Err(Error::NoMatch(owned(s)));
            },
            Err(_) => {
                return Err(Error::Invalid);
            },
        };
        let ghost gv = g@;
        let command = match IrcCommand::from_generic(g) {
            Ok(cmd) => cmd,
            Err(e) => {
                proof {
                    assert forall|cmd: CommandModel| !reads_as(c@, cmd) by {
                        if reads_as(c@, cmd) {
                            let g2 = choose|g2: GenericModel|
                                well_formed(g2) && command_text(g2) == c@ && promote(g2) == Some(
                                    cmd,
                                );
                            lemma_generic_unique(g2, gv);
                        }
                    }
                }
                return Err(Error::Invalid);
            },
        };
        let m = IrcMessage { tags, prefix, command };
        proof {
            assert(reads_as(c@, command@));
            assert(m@.tags == tags_view(tags@));
            assert(parsed_as(s@, m@));
        }
        Ok(m)
    }

    /// Writes the line, CR LF included. Fails with `Invalid` where a
    /// parameter of the command before the last holds a space.
    pub fn to_line(self) -> (r: Result<String, Error>)
        ensures
            r is Err <==> !writable(demote(self@.command)),
            r matches Ok(s) ==> s@ == line_text(self@),
            r matches Err(e) ==> e == Error::Invalid,
    {
        let ghost m = self@;
        let IrcMessage { tags, prefix, command } = self;
        let ghost ts = tags_view(tags@);
        let mut buffer = String::new();
        proof {
            reveal_strlit("@");
            reveal_strlit(";");
            reveal_strlit("=");
            reveal_strlit(" ");
            reveal_strlit(":");
            reveal_strlit("\r\n");
        }
        let n = tags.len();
        if n > 0 {
            buffer.append("@");
            let mut i: usize = 0;
            while i < n
                invariant
                    n == tags.len(),
                    ts == tags_view(tags@),
                    i <= n,
                    buffer@ == seq!['@'] + tags_joined(ts.take(i as int)),
                decreases n - i,
            {
                proof {
                    reveal_strlit(";");
                    reveal_strlit("=");
                }
                let ghost before = buffer@;
                if i > 0 {
                    buffer.append(";");
                }
                let tag = &tags[i];
                buffer.append(tag.0.as_str());
                match &tag.1 {
                    Some(v) => {
                        buffer.append("=");
                        buffer.append(v.as_str());
                    },
                    None => {},
                }
                proof {
                    assert(ts[i as int] == tag_view(*tag));
                    assert(ts.take(i as int + 1).drop_last() =~= ts.take(i as int));
                    if i == 0 {
                        assert(ts.take(1)[0] == ts[0]);
                        assert(tags_joined(ts.take(0)) =~= Seq::<char>::empty());
                        assert(buffer@ =~= seq!['@'] + tags_joined(ts.take(1)));
                    } else {
                        assert(buffer@ =~= seq!['@'] + tags_joined(ts.take(i as int + 1)));
                    }
                }
                i = i + 1;
            }
            buffer.append(" ");
            assert(ts.take(n as int) =~= ts);
        }
        assert(buffer@ =~= tags_text(m.tags));
        match &prefix {
            Some(p) => {
                buffer.append(":");
                buffer.append(p.as_str());
                buffer.append(" ");
            },
            None => {},
        }
        assert(buffer@ =~= tags_text(m.tags) + prefix_text(m.prefix));
        let text = match command.into_generic().to_text() {
            Ok(t) => t,
            Err(e) => {
                return Err(e);
            },
        };
        buffer.append(text.as_str());
        buffer.append("\r\n");
        assert(buffer@ =~= line_text(m));
        Ok(buffer)
    }
}

impl IrcCommand {
    /// Reads a command without line end, typed where its code is known.
    pub fn parse(s: &str) -> (r: Result<IrcCommand, Error>)
        ensures
            r is Ok <==> exists|cmd: CommandModel| reads_as(s@, cmd),
            r matches Ok(c) ==> reads_as(s@, c@),
            r matches Err(e) ==> match e {
                Error::NoCommand(x) => x@ == s@ && first_space(s@) == 0,
                Error::Invalid => first_space(s@) > 0 && (!is_code_token(leading_token(s@))
                    || is_command_text(s@)),
                Error::NoMatch(x) => x@ == s@ && is_code_token(leading_token(s@))
                    && !is_command_text(s@),
                Error::MotdOutOfOrder => false,
            },
    {
        let g = match GenericIrcCommand::parse(s) {
            Ok(g) => g,
            Err(e) => {
                proof {
                    assert forall|cmd: CommandModel| !reads_as(s@, cmd) by {
                        if reads_as(s@, cmd) {
                            let g2 = choose|g2: GenericModel|
                                well_formed(g2) && command_text(g2) == s@ && promote(g2) == Some(
                                    cmd,
                                );
                            assert(is_command_text(s@));
                        }
                    }
                }
                return Err(e);
            },
        };
        let ghost gv = g@;
        match IrcCommand::from_generic(g) {
            Ok(c) => {
                assert(reads_as(s@, c@));
                Ok(c)
            },
            Err(e) => {
                proof {
                    assert forall|cmd: CommandModel| !reads_as(s@, cmd) by {
                        if reads_as(s@, cmd) {
                            let g2 = choose|g2: GenericModel|
                                well_formed(g2) && command_text(g2) == s@ && promote(g2) == Some(
                                    cmd,
                                );
                            lemma_generic_unique(g2, gv);
                        }
                    }
                }
                Err(e)
            },
        }
    }

    /// Writes the command without line end. Fails with `Invalid` where a
    /// parameter before the last holds a space.
    pub fn to_text(self) -> (r: Result<String, Error>)
        ensures
            r is Err <==> !writable(demote(self@)),
            r matches Ok(s) ==> s@ == command_text(demote(self@)),
            r matches Err(e) ==> e == Error::Invalid,
    {
        self.into_generic().to_text()
    }
}

} // verus!
