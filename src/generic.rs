//! The untyped form of a command: a code, middle parameters and an optional
//! trailing parameter, with its wire text.
use vstd::prelude::*;

use crate::error::Error;
use crate::text::{
    all_digits, all_upper, chars_of, contains_char, decimal, digit_char, digit_value, digits_value,
    is_digit, is_line_control, is_upper, is_word, lacks, lemma_decimal_digits, lemma_digit_char,
    owned, padded3, padded3_string, slice_string,
};

verus! {

/// A command code: a word of capitals, or a numeric reply code.
#[derive(Debug, PartialEq, Clone)]
pub enum GenericIrcCommandType {
    Text(String),
    Number(u16),
}

/// A command in the form the grammar gives it.
#[derive(Debug, PartialEq, Clone)]
pub struct GenericIrcCommand {
    pub command: GenericIrcCommandType,
    pub params: Vec<String>,
    pub trailing: Option<String>,
}

/// What a code is, as characters.
pub enum CodeModel {
    Text(Seq<char>),
    Number(u16),
}

/// What a command is, as characters.
#[verifier::ext_equal]
pub struct GenericModel {
    pub code: CodeModel,
    pub params: Seq<Seq<char>>,
    pub trailing: Option<Seq<char>>,
}

pub open spec fn opt_view(o: Option<String>) -> Option<Seq<char>> {
    match o {
        Some(s) => Some(s@),
        None => None,
    }
}

pub open spec fn strings_view(v: Seq<String>) -> Seq<Seq<char>> {
    v.map_values(|s: String| s@)
}

impl View for GenericIrcCommandType {
    type V = CodeModel;

    open spec fn view(&self) -> CodeModel {
        match self {
            GenericIrcCommandType::Text(t) => CodeModel::Text(t@),
            GenericIrcCommandType::Number(n) => CodeModel::Number(*n),
        }
    }
}

impl View for GenericIrcCommand {
    type V = GenericModel;

    open spec fn view(&self) -> GenericModel {
        GenericModel {
            code: self.command@,
            params: strings_view(self.params@),
            trailing: opt_view(self.trailing),
        }
    }
}

// ---- The wire text of a command ----

/// A code as it is written: a word as it stands, a number with at least three digits.
pub open spec fn code_text(c: CodeModel) -> Seq<char> {
    match c {
        CodeModel::Text(t) => t,
        CodeModel::Number(n) => padded3(n as nat),
    }
}

/// Each parameter preceded by a space.
pub open spec fn spaced(ps: Seq<Seq<char>>) -> Seq<char>
    decreases ps.len(),
{
    if ps.len() == 0 {
        Seq::empty()
    } else {
        spaced(ps.drop_last()) + (seq![' '] + ps.last())
    }
}

/// The last parameter: introduced by ` :` when it holds a space.
pub open spec fn last_text(p: Seq<char>) -> Seq<char> {
    if lacks(p, ' ') {
        seq![' '] + p
    } else {
        seq![' ', ':'] + p
    }
}

pub open spec fn params_text(ps: Seq<Seq<char>>) -> Seq<char> {
    if ps.len() == 0 {
        Seq::empty()
    } else {
        spaced(ps.drop_last()) + last_text(ps.last())
    }
}

pub open spec fn trailing_text(t: Option<Seq<char>>) -> Seq<char> {
    match t {
        Some(t) => seq![' ', ':'] + t,
        None => Seq::empty(),
    }
}

/// The text of a command, without the line end.
pub open spec fn command_text(g: GenericModel) -> Seq<char> {
    code_text(g.code) + params_text(g.params) + trailing_text(g.trailing)
}

/// The parameters that are written as middle parameters: all of them when
/// a trailing parameter is present, all but the last otherwise.
pub open spec fn middle_count(g: GenericModel) -> int {
    if g.trailing is Some {
        g.params.len() as int
    } else {
        g.params.len() - 1
    }
}

/// A command can be written unless a middle parameter holds a space: only
/// the trailing parameter, or a last parameter standing in for it, may.
pub open spec fn writable(g: GenericModel) -> bool {
    forall|i: int| 0 <= i < middle_count(g) ==> lacks(#[trigger] g.params[i], ' ')
}

// ---- What the grammar accepts ----

/// A code token: one or more capitals, or exactly three digits.
pub open spec fn is_code_token(t: Seq<char>) -> bool {
    ||| t.len() > 0 && all_upper(t)
    ||| t.len() == 3 && all_digits(t)
}

pub open spec fn code_ok(c: CodeModel) -> bool {
    match c {
        CodeModel::Text(t) => t.len() > 0 && all_upper(t),
        CodeModel::Number(n) => n <= 999,
    }
}

/// A middle parameter: a non-empty word that does not start with `:`.
pub open spec fn is_middle(p: Seq<char>) -> bool {
    p.len() > 0 && p[0] != ':' && is_word(p)
}

/// A trailing parameter: non-empty, with no carriage return or line feed.
pub open spec fn is_trailing(t: Seq<char>) -> bool {
    t.len() > 0 && forall|i: int| 0 <= i < t.len() ==> #[trigger] t[i] != '\r' && t[i] != '\n'
}

pub open spec fn well_formed(g: GenericModel) -> bool {
    &&& code_ok(g.code)
    &&& forall|i: int| 0 <= i < g.params.len() ==> is_middle(#[trigger] g.params[i])
    &&& g.trailing matches Some(t) ==> is_trailing(t)
}

/// The text of some well-formed command.
pub open spec fn is_command_text(s: Seq<char>) -> bool {
    exists|g: GenericModel| well_formed(g) && command_text(g) == s
}

/// Where the first space of `s` is, or its length.
pub open spec fn first_space(s: Seq<char>) -> int
    decreases s.len(),
{
    if s.len() == 0 {
        0
    } else if s[0] == ' ' {
        0
    } else {
        1 + first_space(s.drop_first())
    }
}

/// The characters before the first space.
pub open spec fn leading_token(s: Seq<char>) -> Seq<char> {
    s.take(first_space(s))
}

// ---- Lemmas ----

pub proof fn lemma_first_space(s: Seq<char>, k: int)
    requires
        0 <= k <= s.len(),
        forall|j: int| 0 <= j < k ==> s[j] != ' ',
        k == s.len() || s[k] == ' ',
    ensures
        first_space(s) == k,
    decreases k,
{
    if k > 0 {
        lemma_first_space(s.drop_first(), k - 1);
    }
}

pub proof fn lemma_spaced_concat(a: Seq<Seq<char>>, b: Seq<Seq<char>>)
    ensures
        spaced(a + b) == spaced(a) + spaced(b),
    decreases b.len(),
{
    if b.len() == 0 {
        assert(a + b =~= a);
        assert(spaced(a) + spaced(b) =~= spaced(a));
    } else {
        lemma_spaced_concat(a, b.drop_last());
        assert((a + b).drop_last() =~= a + b.drop_last());
        assert(spaced(a + b) =~= spaced(a) + spaced(b));
    }
}

pub proof fn lemma_spaced_first(ps: Seq<Seq<char>>)
    requires
        ps.len() > 0,
    ensures
        spaced(ps) == seq![' '] + ps[0] + spaced(ps.drop_first()),
{
    lemma_spaced_concat(seq![ps[0]], ps.drop_first());
    assert(seq![ps[0]] + ps.drop_first() =~= ps);
    assert(seq![ps[0]].drop_last() =~= Seq::<Seq<char>>::empty());
    assert(spaced(seq![ps[0]].drop_last()) =~= Seq::<char>::empty());
    assert(spaced(seq![ps[0]]) =~= seq![' '] + ps[0]);
}

pub proof fn lemma_params_text_plain(ps: Seq<Seq<char>>)
    requires
        forall|i: int| 0 <= i < ps.len() ==> lacks(#[trigger] ps[i], ' '),
    ensures
        params_text(ps) == spaced(ps),
{
    if ps.len() > 0 {
        assert(lacks(ps[ps.len() - 1], ' '));
        assert(params_text(ps) =~= spaced(ps));
    }
}

pub proof fn lemma_middle_lacks_space(g: GenericModel)
    requires
        well_formed(g),
    ensures
        forall|i: int| 0 <= i < g.params.len() ==> lacks(#[trigger] g.params[i], ' '),
        writable(g),
{
    assert forall|i: int| 0 <= i < g.params.len() implies lacks(#[trigger] g.params[i], ' ') by {
        assert(is_middle(g.params[i]));
    }
}

/// Three digits are the padded form of the number they denote.
pub proof fn lemma_three_digits(t: Seq<char>)
    requires
        t.len() == 3,
        all_digits(t),
    ensures
        digits_value(t) == digit_value(t[0]) * 100 + digit_value(t[1]) * 10 + digit_value(t[2]),
        digits_value(t) <= 999,
        padded3(digits_value(t) as nat) == t,
{
    let a = digit_value(t[0]);
    let b = digit_value(t[1]);
    let c = digit_value(t[2]);
    assert(is_digit(t[0]) && is_digit(t[1]) && is_digit(t[2]));
    assert(t.drop_last().drop_last().drop_last() =~= Seq::<char>::empty());
    assert(digits_value(Seq::<char>::empty()) == 0);
    assert(t.drop_last().drop_last().last() == t[0]);
    assert(t.drop_last().last() == t[1]);
    assert(digits_value(t.drop_last().drop_last()) == a);
    assert(digits_value(t.drop_last()) == a * 10 + b);
    let v = a * 100 + b * 10 + c;
    assert(digits_value(t) == v);
    assert(digit_char(a) == t[0] && digit_char(b) == t[1] && digit_char(c) == t[2]);
    let n = v as nat;
    if a == 0 && b == 0 {
        assert(n < 10);
        assert(decimal(n) =~= seq![t[2]]);
        assert(padded3(n) =~= t);
    } else if a == 0 {
        assert(10 <= n < 100);
        assert(n / 10 == b && n % 10 == c);
        assert(decimal((n / 10) as nat) =~= seq![t[1]]);
        assert(decimal(n) =~= seq![t[1], t[2]]);
        assert(padded3(n) =~= t);
    } else {
        assert(100 <= n < 1000);
        assert(n / 10 == a * 10 + b && n % 10 == c);
        let m = (n / 10) as nat;
        assert(m / 10 == a && m % 10 == b);
        assert(decimal((m / 10) as nat) =~= seq![t[0]]);
        assert(decimal(m) =~= seq![t[0], t[1]]);
        assert(decimal(n) =~= t);
    }
}

/// The text of a well-formed code is a code token.
pub proof fn lemma_code_text(c: CodeModel)
    requires
        code_ok(c),
    ensures
        is_code_token(code_text(c)),
        lacks(code_text(c), ' '),
        c is Number ==> code_text(c).len() == 3 && all_digits(code_text(c)),
{
    match c {
        CodeModel::Text(t) => {
            assert forall|i: int| 0 <= i < t.len() implies t[i] != ' ' by {
                assert(is_upper(t[i]));
            }
        },
        CodeModel::Number(n) => {
            let nn = n as nat;
            lemma_decimal_digits(nn);
            let d = decimal(nn);
            if nn < 10 {
                assert(d.len() == 1);
            } else if nn < 100 {
                assert(decimal(nn / 10).len() == 1);
            } else {
                assert(decimal((nn / 10) / 10).len() == 1);
                assert(decimal(nn / 10).len() == 2);
            }
            let p = padded3(nn);
            assert(p.len() == 3);
            assert forall|i: int| 0 <= i < 3 implies is_digit(#[trigger] p[i]) by {
                if nn < 10 {
                    if i >= 2 {
                        assert(p[i] == d[i - 2]);
                    }
                } else if nn < 100 {
                    if i >= 1 {
                        assert(p[i] == d[i - 1]);
                    }
                }
            }
            assert forall|i: int| 0 <= i < p.len() implies p[i] != ' ' by {
                assert(is_digit(p[i]));
            }
        },
    }
}

/// Well-formed text: the code, then each parameter after a space, then the trailing part.
pub proof fn lemma_well_formed_text(g: GenericModel)
    requires
        well_formed(g),
    ensures
        command_text(g) == code_text(g.code) + spaced(g.params) + trailing_text(g.trailing),
        is_code_token(code_text(g.code)),
        lacks(code_text(g.code), ' '),
{
    lemma_middle_lacks_space(g);
    lemma_params_text_plain(g.params);
    lemma_code_text(g.code);
}

impl GenericIrcCommandType {
    /// Reads a code token: three digits give a number, capitals give a word.
    pub fn parse(s: &str) -> (r: Result<GenericIrcCommandType, Error>)
        ensures
            r is Ok <==> is_code_token(s@),
            r matches Ok(c) ==> code_ok(c@) && code_text(c@) == s@,
            r matches Err(e) ==> e == Error::Invalid,
    {
        let cs = chars_of(s);
        let n = cs.len();
        if n == 0 {
            return Err(Error::Invalid);
        }
        if '0' <= cs[0] && cs[0] <= '9' {
            if n == 3 && '0' <= cs[1] && cs[1] <= '9' && '0' <= cs[2] && cs[2] <= '9' {
                let w: u32 = (cs[0] as u32 - '0' as u32) * 100 + (cs[1] as u32 - '0' as u32) * 10
                    + (cs[2] as u32 - '0' as u32);
                let v: u16 = w as u16;
                proof {
                    assert(w as int == digit_value(s@[0]) * 100 + digit_value(s@[1]) * 10
                        + digit_value(s@[2]));
                    assert(w < 1000);
                    assert(v == w);
                    assert(all_digits(s@));
                    lemma_three_digits(s@);
                    assert(v as int == digits_value(s@));
                }
                Ok(GenericIrcCommandType::Number(v))
            } else {
                assert(!is_code_token(s@)) by {
                    assert(!is_upper(s@[0]));
                    if n == 3 {
                        if !('0' <= cs[1] && cs[1] <= '9') {
                            assert(!is_digit(s@[1]));
                        } else {
                            assert(!is_digit(s@[2]));
                        }
                    }
                }
                Err(Error::Invalid)
            }
        } else {
            let mut i: usize = 0;
            while i < n
                invariant
                    cs@ == s@,
                    n == s@.len(),
                    n > 0,
                    !is_digit(s@[0]),
                    i <= n,
                    forall|j: int| 0 <= j < i ==> is_upper(#[trigger] s@[j]),
                decreases n - i,
            {
                if !('A' <= cs[i] && cs[i] <= 'Z') {
                    assert(!is_upper(s@[i as int]));
                    assert(!is_digit(s@[0]));
                    return Err(Error::Invalid);
                }
                i = i + 1;
            }
            Ok(GenericIrcCommandType::Text(owned(s)))
        }
    }

    /// The code as it is written: numbers with at least three digits.
    pub fn to_text(&self) -> (r: String)
        ensures
            r@ == code_text(self@),
    {
        match self {
            GenericIrcCommandType::Text(t) => t.clone(),
            GenericIrcCommandType::Number(n) => padded3_string(*n),
        }
    }
}

/// What follows the code of a well-formed command is empty or starts with a space.
pub proof fn lemma_rest_starts_with_space(ps: Seq<Seq<char>>, t: Option<Seq<char>>)
    ensures
        ({
            let r = spaced(ps) + trailing_text(t);
            r.len() == 0 || r[0] == ' '
        }),
{
    if ps.len() > 0 {
        lemma_spaced_first(ps);
    }
}

/// One parameter further into the rest of a command.
pub proof fn lemma_rest_step(ps: Seq<Seq<char>>, t: Option<Seq<char>>, cnt: int)
    requires
        0 <= cnt < ps.len(),
    ensures
        spaced(ps.skip(cnt)) + trailing_text(t) == seq![' '] + ps[cnt] + (spaced(ps.skip(cnt + 1))
            + trailing_text(t)),
{
    lemma_spaced_first(ps.skip(cnt));
    assert(ps.skip(cnt).drop_first() =~= ps.skip(cnt + 1));
    assert(spaced(ps.skip(cnt)) + trailing_text(t) =~= seq![' '] + ps[cnt] + (spaced(
        ps.skip(cnt + 1),
    ) + trailing_text(t)));
}

impl GenericIrcCommand {
    /// Writes the command without its line end. Fails when a parameter
    /// before the last holds a space: such a line could not be read back.
    pub fn to_text(&self) -> (r: Result<String, Error>)
        ensures
            r is Err <==> !writable(self@),
            r matches Ok(s) ==> s@ == command_text(self@),
            r matches Err(e) ==> e == Error::Invalid,
    {
        let ghost ps = strings_view(self.params@);
        let mut buffer = self.command.to_text();
        let n = self.params.len();
        proof {
            reveal_strlit(" ");
            reveal_strlit(" :");
        }
        if n > 0 {
            let mut i: usize = 0;
            while i < n - 1
                invariant
                    n == self.params.len(),
                    ps == strings_view(self.params@),
                    n > 0,
                    i <= n - 1,
                    buffer@ == code_text(self.command@) + spaced(ps.take(i as int)),
                    forall|j: int| 0 <= j < i ==> lacks(#[trigger] ps[j], ' '),
                decreases n - 1 - i,
            {
                let p = &self.params[i];
                proof {
                    reveal_strlit(" ");
                    assert(ps[i as int] == p@);
                }
                if contains_char(p.as_str(), ' ') {
                    assert(!lacks(ps[i as int], ' '));
                    assert(self@.params[i as int] == ps[i as int]);
                    return Err(Error::Invalid);
                }
                buffer.append(" ");
                buffer.append(p.as_str());
                assert(ps.take(i as int + 1).drop_last() =~= ps.take(i as int));
                assert(buffer@ =~= code_text(self.command@) + spaced(ps.take(i as int + 1)));
                i = i + 1;
            }
            assert(ps.take(n - 1) =~= ps.drop_last());
            let last = &self.params[n - 1];
            assert(ps.last() == last@);
            let spaced_last = contains_char(last.as_str(), ' ');
            if spaced_last && self.trailing.is_some() {
                assert(self@.params[n - 1] == ps.last());
                return Err(Error::Invalid);
            }
            if spaced_last {
                buffer.append(" :");
            } else {
                buffer.append(" ");
            }
            buffer.append(last.as_str());
            assert(buffer@ =~= code_text(self.command@) + params_text(ps));
        }
        match &self.trailing {
            Some(t) => {
                buffer.append(" :");
                buffer.append(t.as_str());
            },
            None => {},
        }
        assert(buffer@ =~= command_text(self@));
        Ok(buffer)
    }

    /// Reads a command: its code, its middle parameters and its trailing
    /// parameter. It gives the well-formed command whose text `s` is, and
    /// fails only where there is none.
    pub fn parse(s: &str) -> (r: Result<GenericIrcCommand, Error>)
        ensures
            r is Ok <==> is_command_text(s@),
            r matches Ok(g) ==> well_formed(g@) && command_text(g@) == s@,
            r is Ok ==> first_space(s@) > 0 && is_code_token(leading_token(s@)),
            r matches Err(e) ==> match e {
                Error::NoCommand(x) => x@ == s@ && first_space(s@) == 0,
                Error::Invalid => first_space(s@) > 0 && !is_code_token(leading_token(s@)),
                Error::NoMatch(x) => x@ == s@ && is_code_token(leading_token(s@)),
                Error::MotdOutOfOrder => false,
            },
    {
        let cs = chars_of(s);
        let n = cs.len();
        let ghost ss = s@;
        let ghost has_w = is_command_text(ss);
        let ghost w = choose|g: GenericModel| well_formed(g) && command_text(g) == ss;
        let ghost wc = code_text(w.code);
        proof {
            if has_w {
                lemma_well_formed_text(w);
                lemma_rest_starts_with_space(w.params, w.trailing);
                assert(ss == wc + (spaced(w.params) + trailing_text(w.trailing)));
                assert(forall|j: int| 0 <= j < wc.len() ==> ss[j] == wc[j]);
                lemma_first_space(ss, wc.len() as int);
                assert(leading_token(ss) =~= wc);
                assert(ss.subrange(wc.len() as int, n as int) =~= spaced(w.params.skip(0))
                    + trailing_text(w.trailing)) by {
                    assert(w.params.skip(0) =~= w.params);
                }
            }
        }
        let mut k: usize = 0;
        while k < n && cs[k] != ' '
            invariant
                cs@ == ss,
                n == ss.len(),
                k <= n,
                forall|j: int| 0 <= j < k ==> ss[j] != ' ',
            decreases n - k,
        {
            k = k + 1;
        }
        proof {
            lemma_first_space(ss, k as int);
        }
        if k == 0 {
            return Err(Error::NoCommand(owned(s)));
        }
        let token = slice_string(s, 0, k);
        let code = match GenericIrcCommandType::parse(token.as_str()) {
            Ok(c) => c,
            Err(e) => {
                return Err(e);
            },
        };
        let mut params: Vec<String> = Vec::new();
        let mut trailing: Option<String> = None;
        let mut i: usize = k;
        proof {
            assert(ss.take(k as int) =~= code_text(code@) + spaced(strings_view(params@))
                + trailing_text(opt_view(trailing)));
        }
        while i < n
            invariant
                cs@ == ss,
                n == ss.len(),
                k <= i <= n,
                code_ok(code@),
                first_space(ss) > 0,
                is_code_token(leading_token(ss)),
                ss.take(i as int) == code_text(code@) + spaced(strings_view(params@))
                    + trailing_text(opt_view(trailing)),
                trailing is Some ==> i == n,
                i < n ==> ss[i as int] == ' ',
                forall|j: int|
                    0 <= j < params.len() ==> is_middle(#[trigger] strings_view(params@)[j]),
                trailing matches Some(t) ==> is_trailing(t@),
                ss == s@,
                has_w == is_command_text(ss),
                has_w ==> well_formed(w),
                has_w && trailing is None ==> params.len() <= w.params.len() && ss.subrange(i as int, n as int)
                    == spaced(w.params.skip(params.len() as int)) + trailing_text(w.trailing),
            decreases n - i,
        {
            let ghost cnt = params.len() as int;
            let ghost rest = ss.subrange(i as int, n as int);
            proof {
                if has_w && cnt < w.params.len() {
                    lemma_rest_step(w.params, w.trailing, cnt);
                    assert(is_middle(w.params[cnt]));
                    assert(rest[1] == w.params[cnt][0]);
                }
                if has_w && cnt == w.params.len() {
                    assert(w.params.skip(cnt) =~= Seq::<Seq<char>>::empty());
                    assert(rest =~= trailing_text(w.trailing));
                }
            }
            if i + 1 < n && cs[i + 1] == ':' {
                proof {
                    if has_w {
                        assert(cnt == w.params.len());
                        assert(w.trailing is Some);
                        assert(rest.skip(2) =~= w.trailing->0);
                    }
                }
                if i + 2 == n {
                    return Err(Error::NoMatch(owned(s)));
                }
                let mut j: usize = i + 2;
                while j < n
                    invariant
                        cs@ == ss,
                        n == ss.len(),
                        i + 2 <= j <= n,
                        forall|m: int| i + 2 <= m < j ==> #[trigger] ss[m] != '\r' && ss[m] != '\n',
                        ss == s@,
                        has_w == is_command_text(ss),
                        is_code_token(leading_token(ss)),
                        has_w ==> ss.subrange(i as int, n as int) == trailing_text(w.trailing),
                        has_w ==> well_formed(w) && w.trailing is Some,
                    decreases n - j,
                {
                    if cs[j] == '\r' || cs[j] == '\n' {
                        proof {
                            if has_w {
                                let t = w.trailing->0;
                                assert(is_trailing(t));
                                assert(ss.subrange(i as int, n as int)[j - i] == ss[j as int]);
                                assert(t[j - i - 2] == ss[j as int]);
                            }
                        }
                        return Err(Error::NoMatch(owned(s)));
                    }
                    j = j + 1;
                }
                let t = slice_string(s, i + 2, n);
                proof {
                    reveal_strlit(" :");
                    assert(ss.take(n as int) =~= ss.take(i as int) + trailing_text(Some(t@)));
                }
                trailing = Some(t);
                i = n;
            } else {
                let mut j: usize = i + 1;
                while j < n && cs[j] != ' ' && cs[j] != '\r' && cs[j] != '\n' && cs[j] != '\0'
                    invariant
                        cs@ == ss,
                        n == ss.len(),
                        i + 1 <= j <= n,
                        forall|m: int|
                            i + 1 <= m < j ==> #[trigger] ss[m] != ' ' && !is_line_control(ss[m]),
                    decreases n - j,
                {
                    j = j + 1;
                }
                proof {
                    if has_w {
                        if cnt == w.params.len() {
                            assert(w.trailing is Some);
                            assert(rest[1] == ':');
                            assert(ss[i as int + 1] == rest[1]);
                        }
                        let p = w.params[cnt];
                        let after = spaced(w.params.skip(cnt + 1)) + trailing_text(w.trailing);
                        lemma_rest_starts_with_space(w.params.skip(cnt + 1), w.trailing);
                        assert(rest == seq![' '] + p + after);
                        assert forall|m: int| 0 <= m < p.len() implies ss[i + 1 + m] == p[m]
                            && ss[i + 1 + m] != ' ' && !is_line_control(ss[i + 1 + m]) by {
                            assert(rest[1 + m] == p[m]);
                        }
                        if j < i + 1 + p.len() {
                            assert(ss[j as int] == p[j - i - 1]);
                        }
                        if i + 1 + p.len() < n {
                            assert(rest[1 + p.len() as int] == after[0]);
                            assert(ss[i + 1 + p.len()] == rest[1 + p.len() as int]);
                        }
                        assert(j == i + 1 + p.len());
                        assert forall|m: int| 0 <= m < after.len() implies ss.subrange(
                            j as int,
                            n as int,
                        )[m] == after[m] by {
                            assert(rest[1 + p.len() + m] == after[m]);
                            assert(ss[j + m] == rest[1 + p.len() + m]);
                        }
                        assert(ss.subrange(j as int, n as int) =~= after);
                    }
                }
                if j == i + 1 || (j < n && cs[j] != ' ') {
                    return Err(Error::NoMatch(owned(s)));
                }
                let p = slice_string(s, i + 1, j);
                proof {
                    reveal_strlit(" ");
                    assert(is_middle(p@));
                    assert(strings_view(params@.push(p)) =~= strings_view(params@).push(p@));
                    assert(strings_view(params@).push(p@).drop_last() =~= strings_view(params@));
                    assert(ss.take(j as int) =~= ss.take(i as int) + (seq![' '] + p@));
                }
                params.push(p);
                i = j;
            }
        }
        let g = GenericIrcCommand { command: code, params, trailing };
        proof {
            assert(ss =~= ss.take(n as int));
            lemma_middle_lacks_space(g@);
            lemma_params_text_plain(g@.params);
            assert(well_formed(g@) && command_text(g@) == ss);
        }
        Ok(g)
    }
}

/// The padded text of a number up to 999 is three digits that denote it.
pub proof fn lemma_padded3_value(n: nat)
    requires
        n <= 999,
    ensures
        padded3(n).len() == 3,
        all_digits(padded3(n)),
        digits_value(padded3(n)) == n,
{
    lemma_code_text(CodeModel::Number(n as u16));
    let p = padded3(n);
    lemma_three_digits(p);
    if n < 10 {
        lemma_digit_char(n as int);
        assert(p =~= seq!['0', '0', digit_char(n as int)]);
    } else if n < 100 {
        lemma_digit_char((n / 10) as int);
        lemma_digit_char((n % 10) as int);
        assert(decimal(n / 10) =~= seq![digit_char((n / 10) as int)]);
        assert(p =~= seq!['0', digit_char((n / 10) as int), digit_char((n % 10) as int)]);
    } else {
        let m = n / 10;
        lemma_digit_char((m / 10) as int);
        lemma_digit_char((m % 10) as int);
        lemma_digit_char((n % 10) as int);
        assert(m / 10 < 10);
        assert(decimal(m / 10) =~= seq![digit_char((m / 10) as int)]);
        assert(decimal(m) =~= seq![digit_char((m / 10) as int), digit_char((m % 10) as int)]);
        assert(p =~= seq![
            digit_char((m / 10) as int),
            digit_char((m % 10) as int),
            digit_char((n % 10) as int),
        ]);
        assert((m / 10) * 100 + (m % 10) * 10 + n % 10 == n) by (nonlinear_arith)
            requires
                m == n / 10,
        ;
    }
}

/// Two well-formed codes with the same text are the same code.
pub proof fn lemma_code_unique(c1: CodeModel, c2: CodeModel)
    requires
        code_ok(c1),
        code_ok(c2),
        code_text(c1) == code_text(c2),
    ensures
        c1 == c2,
{
    match (c1, c2) {
        (CodeModel::Number(a), CodeModel::Number(b)) => {
            lemma_padded3_value(a as nat);
            lemma_padded3_value(b as nat);
        },
        (CodeModel::Number(a), CodeModel::Text(t)) => {
            lemma_padded3_value(a as nat);
            assert(is_upper(t[0]) && is_digit(t[0]));
        },
        (CodeModel::Text(t), CodeModel::Number(b)) => {
            lemma_padded3_value(b as nat);
            assert(is_upper(t[0]) && is_digit(t[0]));
        },
        (CodeModel::Text(_), CodeModel::Text(_)) => {},
    }
}

/// The parameters and the trailing parameter of a well-formed command are
/// determined by their text.
pub proof fn lemma_rest_unique(
    ps1: Seq<Seq<char>>,
    t1: Option<Seq<char>>,
    ps2: Seq<Seq<char>>,
    t2: Option<Seq<char>>,
)
    requires
        forall|i: int| 0 <= i < ps1.len() ==> is_middle(#[trigger] ps1[i]),
        forall|i: int| 0 <= i < ps2.len() ==> is_middle(#[trigger] ps2[i]),
        t1 matches Some(t) ==> is_trailing(t),
        t2 matches Some(t) ==> is_trailing(t),
        spaced(ps1) + trailing_text(t1) == spaced(ps2) + trailing_text(t2),
    ensures
        ps1 == ps2,
        t1 == t2,
    decreases ps1.len() + ps2.len(),
{
    let x = spaced(ps1) + trailing_text(t1);
    if ps1.len() == 0 && ps2.len() == 0 {
        assert(spaced(ps1) =~= Seq::<char>::empty());
        assert(spaced(ps2) =~= Seq::<char>::empty());
        assert(ps1 =~= ps2);
        match (t1, t2) {
            (Some(a), Some(b)) => {
                assert(a =~= x.skip(2));
                assert(b =~= x.skip(2));
            },
            _ => {},
        }
    } else if ps1.len() == 0 || ps2.len() == 0 {
        let (ps, t, qs, u) = if ps1.len() == 0 {
            (ps2, t2, ps1, t1)
        } else {
            (ps1, t1, ps2, t2)
        };
        lemma_spaced_first(ps);
        assert(spaced(qs) =~= Seq::<char>::empty());
        assert(is_middle(ps[0]));
        assert(x[1] == ps[0][0]);
    } else {
        lemma_spaced_first(ps1);
        lemma_spaced_first(ps2);
        let p = ps1[0];
        let lp = p.len() as int;
        let q = ps2[0];
        let lq = q.len() as int;
        assert(is_middle(p) && is_middle(q));
        let r1 = spaced(ps1.drop_first()) + trailing_text(t1);
        let r2 = spaced(ps2.drop_first()) + trailing_text(t2);
        lemma_rest_starts_with_space(ps1.drop_first(), t1);
        lemma_rest_starts_with_space(ps2.drop_first(), t2);
        assert(x =~= seq![' '] + p + r1);
        assert(x =~= seq![' '] + q + r2);
        if p.len() < q.len() {
            assert(x[1 + lp] == q[lp]);
            if r1.len() == 0 {
                assert(x.len() == 1 + lp);
            } else {
                assert(x[1 + lp] == r1[0]);
            }
        } else if q.len() < p.len() {
            assert(x[1 + lq] == p[lq]);
            if r2.len() == 0 {
                assert(x.len() == 1 + lq);
            } else {
                assert(x[1 + lq] == r2[0]);
            }
        }
        assert(p =~= x.subrange(1, 1 + lp));
        assert(q =~= x.subrange(1, 1 + lq));
        assert(r1 =~= x.skip(1 + lp));
        assert(r2 =~= x.skip(1 + lq));
        lemma_rest_unique(ps1.drop_first(), t1, ps2.drop_first(), t2);
        assert(ps1 =~= seq![p] + ps1.drop_first());
        assert(ps2 =~= seq![q] + ps2.drop_first());
    }
}

/// Two well-formed commands with the same text are the same command.
pub proof fn lemma_generic_unique(g1: GenericModel, g2: GenericModel)
    requires
        well_formed(g1),
        well_formed(g2),
        command_text(g1) == command_text(g2),
    ensures
        g1 == g2,
{
    let s = command_text(g1);
    lemma_well_formed_text(g1);
    lemma_well_formed_text(g2);
    let c1 = code_text(g1.code);
    let c2 = code_text(g2.code);
    let r1 = spaced(g1.params) + trailing_text(g1.trailing);
    let r2 = spaced(g2.params) + trailing_text(g2.trailing);
    lemma_rest_starts_with_space(g1.params, g1.trailing);
    lemma_rest_starts_with_space(g2.params, g2.trailing);
    assert(s =~= c1 + r1);
    assert(s =~= c2 + r2);
    assert(forall|j: int| 0 <= j < c1.len() ==> s[j] == c1[j]);
    assert(forall|j: int| 0 <= j < c2.len() ==> s[j] == c2[j]);
    if c1.len() < s.len() {
        assert(s[c1.len() as int] == r1[0]);
    }
    if c2.len() < s.len() {
        assert(s[c2.len() as int] == r2[0]);
    }
    lemma_first_space(s, c1.len() as int);
    lemma_first_space(s, c2.len() as int);
    assert(c1 =~= s.take(c1.len() as int));
    assert(c2 =~= s.take(c2.len() as int));
    assert(r1 =~= s.skip(c1.len() as int));
    assert(r2 =~= s.skip(c2.len() as int));
    lemma_code_unique(g1.code, g2.code);
    lemma_rest_unique(g1.params, g1.trailing, g2.params, g2.trailing);
}

/// The text of a well-formed command starts with its code token.
pub proof fn lemma_command_text_token(s: Seq<char>)
    requires
        is_command_text(s),
    ensures
        first_space(s) > 0,
        first_space(s) <= s.len(),
        is_code_token(leading_token(s)),
{
    let w = choose|g: GenericModel| well_formed(g) && command_text(g) == s;
    let wc = code_text(w.code);
    lemma_well_formed_text(w);
    lemma_rest_starts_with_space(w.params, w.trailing);
    assert(s == wc + (spaced(w.params) + trailing_text(w.trailing)));
    assert(forall|j: int| 0 <= j < wc.len() ==> s[j] == wc[j]);
    lemma_first_space(s, wc.len() as int);
    assert(leading_token(s) =~= wc);
}

} // verus!
