use vstd::prelude::*;
use crate::position::{position_at, Position};
use crate::str_read::{char_at, StrRead};
use crate::text::push_char;
use crate::text::{
    all_ascii_digits, alphanumeric, chars_of, decimal_value, is_alphanumeric, is_numeric, numeric,
    parse_index,
};
use crate::token::{Token, TokenView};

verus! {

/// The runs of characters that the lexer takes in one go.
pub enum CharClass {
    /// anything but `$`: plain text
    NotDollar,
    /// anything but `}` and a line break: a payload inside a param
    NotCloseOrNewline,
    /// numeric characters: an index
    Numeric,
    /// alphanumeric characters and `_`: a name
    NameChar,
}

pub open spec fn in_class(class: CharClass, c: char) -> bool {
    match class {
        CharClass::NotDollar => c != '$',
        CharClass::NotCloseOrNewline => c != '}' && c != '\n',
        CharClass::Numeric => numeric(c),
        CharClass::NameChar => alphanumeric(c) || c == '_',
    }
}

/// The end of the longest run of characters of `class` in `s` from index `i` on.
pub open spec fn scan(s: Seq<char>, i: int, class: CharClass) -> int
    decreases s.len() - i,
{
    if 0 <= i < s.len() && in_class(class, s[i]) {
        scan(s, i + 1, class)
    } else {
        i
    }
}

/// `$$` at index `i`: an escaped dollar sign.
pub open spec fn escaped_at(s: Seq<char>, i: int) -> bool {
    char_at(s, i) == Some('$') && char_at(s, i + 1) == Some('$')
}

/// A `$` that opens a param: one that is neither doubled nor the last character.
pub open spec fn opens_param(s: Seq<char>, i: int) -> bool {
    char_at(s, i) == Some('$') && char_at(s, i + 1) is Some && char_at(s, i + 1) != Some('$')
}

/// How many characters at index `i` stand for one literal `$` in plain text: two for
/// `$$`, one for a `$` that ends the input, none otherwise.
pub open spec fn escape_len(s: Seq<char>, i: int) -> int {
    if escaped_at(s, i) {
        2
    } else if char_at(s, i) == Some('$') && char_at(s, i + 1) is None {
        1
    } else {
        0
    }
}

/// A run of plain text from index `i`: the text it stands for and where it ends.
pub open spec fn text_run(s: Seq<char>, i: int) -> (Seq<char>, int)
    decreases s.len() - i,
{
    let i1 = i + escape_len(s, i);
    let dollar: Seq<char> = if escape_len(s, i) > 0 {
        seq!['$']
    } else {
        Seq::empty()
    };
    let j = scan(s, i1, CharClass::NotDollar);
    if 0 <= i <= i1 < j <= s.len() {
        let rest = text_run(s, j);
        (dollar + s.subrange(i1, j) + rest.0, rest.1)
    } else {
        (dollar, i1)
    }
}

/// A payload text with each `$$` pair, read from the left, made one `$`.
pub open spec fn collapse_dollars(t: Seq<char>) -> Seq<char>
    decreases t.len(),
{
    if t.len() == 0 {
        Seq::empty()
    } else if t.len() >= 2 && t[0] == '$' && t[1] == '$' {
        seq!['$'] + collapse_dollars(t.skip(2))
    } else {
        seq![t[0]] + collapse_dollars(t.drop_first())
    }
}

/// The token for a one-character piece of punctuation.
pub open spec fn punctuation(c: char) -> Option<TokenView> {
    if c == '{' {
        Some(TokenView::OpenBrace)
    } else if c == '}' {
        Some(TokenView::CloseBrace)
    } else if c == '!' {
        Some(TokenView::ExclamationMark)
    } else if c == ':' {
        Some(TokenView::Colon)
    } else if c == '-' {
        Some(TokenView::Dash)
    } else if c == '+' {
        Some(TokenView::Plus)
    } else if c == '?' {
        Some(TokenView::QuestionMark)
    } else if c == '#' {
        Some(TokenView::PoundSign)
    } else if c == '^' {
        Some(TokenView::Caret)
    } else if c == ',' {
        Some(TokenView::Comma)
    } else if c == '~' {
        Some(TokenView::Tilde)
    } else {
        None
    }
}

/// Whether a name or an index may start right after `prev`.
pub open spec fn opens_identifier(prev: Option<TokenView>) -> bool {
    match prev {
        Some(TokenView::DollarSign) => true,
        Some(TokenView::OpenBrace) => true,
        Some(TokenView::PoundSign) => true,
        Some(TokenView::ExclamationMark) => true,
        _ => false,
    }
}

/// The value of an index written with the characters `t`; zero where they are not
/// all ASCII digits or the number does not fit.
pub open spec fn index_value(t: Seq<char>) -> usize {
    if t.len() > 0 && all_ascii_digits(t) && decimal_value(t) <= usize::MAX {
        decimal_value(t) as usize
    } else {
        0
    }
}

/// The token read at index `i` inside a param, and where it ends.
pub open spec fn param_token(s: Seq<char>, i: int, prev: Option<TokenView>) -> Option<
    (TokenView, int),
> {
    match char_at(s, i) {
        None => None,
        Some(c) => if c == '$' && !escaped_at(s, i) {
            Some((TokenView::DollarSign, i + 1))
        } else if punctuation(c) is Some {
            Some((punctuation(c)->0, i + 1))
        } else if opens_identifier(prev) && numeric(c) {
            let j = scan(s, i, CharClass::Numeric);
            Some((TokenView::Index(index_value(s.subrange(i, j))), j))
        } else if opens_identifier(prev) && (alphanumeric(c) || c == '_') {
            let j = scan(s, i, CharClass::NameChar);
            Some((TokenView::Identifier(s.subrange(i, j)), j))
        } else {
            let j = scan(s, i, CharClass::NotCloseOrNewline);
            if j == i {
                None
            } else {
                Some((TokenView::Text(collapse_dollars(s.subrange(i, j))), j))
            }
        },
    }
}

/// What the lexer knows between two tokens.
pub struct LexState {
    /// characters consumed
    pub pos: int,
    /// the token read last
    pub prev: Option<TokenView>,
    /// braces opened and not yet closed
    pub nesting: int,
}

pub open spec fn start_state() -> LexState {
    LexState { pos: 0, prev: None, nesting: 0 }
}

/// Inside a param: within braces, or right after a `$`.
pub open spec fn in_param(st: LexState) -> bool {
    st.nesting > 0 || st.prev == Some(TokenView::DollarSign)
}

/// The next token and where it ends, if the input has one more.
pub open spec fn next_token(s: Seq<char>, st: LexState) -> Option<(TokenView, int)> {
    if in_param(st) || opens_param(s, st.pos) {
        param_token(s, st.pos, st.prev)
    } else {
        let (t, j) = text_run(s, st.pos);
        if t.len() > 0 {
            Some((TokenView::Text(t), j))
        } else {
            None
        }
    }
}

pub open spec fn next_nesting(nesting: int, t: TokenView) -> int {
    match t {
        TokenView::OpenBrace => nesting + 1,
        TokenView::CloseBrace => if nesting > 0 {
            nesting - 1
        } else {
            0
        },
        _ => nesting,
    }
}

/// One step of the lexer: the next token and the state after it.
pub open spec fn lex_step(s: Seq<char>, st: LexState) -> Option<(TokenView, LexState)> {
    match next_token(s, st) {
        None => None,
        Some((t, j)) => Some(
            (t, LexState { pos: j, prev: Some(t), nesting: next_nesting(st.nesting, t) }),
        ),
    }
}

/// The tokens read from state `st` on, each with the index where it starts.
pub open spec fn lex_from(s: Seq<char>, st: LexState) -> Seq<(TokenView, int)>
    decreases s.len() - st.pos,
{
    match lex_step(s, st) {
        None => Seq::empty(),
        Some((t, next)) => if 0 <= st.pos < next.pos <= s.len() {
            seq![(t, st.pos)] + lex_from(s, next)
        } else {
            // never taken: every token takes at least one character
            Seq::empty()
        },
    }
}

/// Where the lexer stops, reading from state `st` on.
pub open spec fn lex_end(s: Seq<char>, st: LexState) -> int
    decreases s.len() - st.pos,
{
    match lex_step(s, st) {
        None => st.pos,
        Some((t, next)) => if 0 <= st.pos < next.pos <= s.len() {
            lex_end(s, next)
        } else {
            // never taken: every token takes at least one character
            st.pos
        },
    }
}

/// All tokens of the input, each with the index of the character where it starts.
pub open spec fn tokens(s: Seq<char>) -> Seq<(TokenView, int)> {
    lex_from(s, start_state())
}

/// The index of the character where the lexer stops: the end of the input, or a line
/// break inside a param.
pub open spec fn tokens_end(s: Seq<char>) -> int {
    lex_end(s, start_state())
}

pub proof fn lemma_scan_bounds(s: Seq<char>, i: int, class: CharClass)
    requires
        0 <= i <= s.len(),
    ensures
        i <= scan(s, i, class) <= s.len(),
        forall|k: int| i <= k < scan(s, i, class) ==> in_class(class, #[trigger] s[k]),
        scan(s, i, class) < s.len() ==> !in_class(class, s[scan(s, i, class)]),
    decreases s.len() - i,
{
    if i < s.len() && in_class(class, s[i]) {
        lemma_scan_bounds(s, i + 1, class);
    }
}

pub proof fn lemma_scan_exact(s: Seq<char>, i: int, j: int, class: CharClass)
    requires
        0 <= i <= j <= s.len(),
        forall|k: int| i <= k < j ==> in_class(class, #[trigger] s[k]),
        j < s.len() ==> !in_class(class, s[j]),
    ensures
        scan(s, i, class) == j,
    decreases j - i,
{
    if i < j {
        lemma_scan_exact(s, i + 1, j, class);
    }
}

pub proof fn lemma_text_run_bounds(s: Seq<char>, i: int)
    requires
        0 <= i <= s.len(),
    ensures
        i <= text_run(s, i).1 <= s.len(),
        text_run(s, i).0.len() == 0 <==> text_run(s, i).1 == i,
    decreases s.len() - i,
{
    let i1 = i + escape_len(s, i);
    lemma_scan_bounds(s, i1, CharClass::NotDollar);
    let j = scan(s, i1, CharClass::NotDollar);
    if i1 < j {
        lemma_text_run_bounds(s, j);
    }
}

pub proof fn lemma_step_progress(s: Seq<char>, st: LexState)
    requires
        0 <= st.pos <= s.len(),
        lex_step(s, st) is Some,
    ensures
        st.pos < (lex_step(s, st)->0).1.pos <= s.len(),
{
    if in_param(st) || opens_param(s, st.pos) {
        let i = st.pos;
        let c = s[i];
        if c == '$' && !escaped_at(s, i) {
        } else if punctuation(c) is Some {
        } else if opens_identifier(st.prev) && numeric(c) {
            lemma_scan_bounds(s, i, CharClass::Numeric);
        } else if opens_identifier(st.prev) && (alphanumeric(c) || c == '_') {
            lemma_scan_bounds(s, i, CharClass::NameChar);
        } else {
            lemma_scan_bounds(s, i, CharClass::NotCloseOrNewline);
        }
    } else {
        lemma_text_run_bounds(s, st.pos);
    }
}

/// Turns the input into tokens, one at a time. Whether a character starts a param
/// or belongs to plain text depends on the brace nesting and on the token before.
pub struct Lexer {
    reader: StrRead,
    previous_token: Option<Token>,
    nesting_level: usize,
    finished: bool,
    count: Ghost<int>,
}

pub open spec fn token_view(t: Option<Token>) -> Option<TokenView> {
    match t {
        Some(t) => Some(t@),
        None => None,
    }
}

impl Lexer {
    /// The whole input.
    pub closed spec fn input(&self) -> Seq<char> {
        self.reader.input()
    }

    /// How many tokens have been handed out.
    pub closed spec fn count(&self) -> int {
        self.count@
    }

    /// Whether the lexer has reported the end of its tokens.
    pub closed spec fn finished(&self) -> bool {
        self.finished
    }

    closed spec fn state(&self) -> LexState {
        LexState {
            pos: self.reader.offset(),
            prev: token_view(self.previous_token),
            nesting: self.nesting_level as int,
        }
    }

    pub closed spec fn wf(&self) -> bool {
        &&& self.reader.wf()
        &&& 0 <= self.count@ <= tokens(self.input()).len()
        &&& self.nesting_level <= self.reader.offset()
        &&& if self.finished {
            &&& self.count@ == tokens(self.input()).len()
            &&& self.reader.offset() == tokens_end(self.input())
        } else {
            &&& lex_from(self.input(), self.state()) == tokens(self.input()).skip(self.count@)
            &&& lex_end(self.input(), self.state()) == tokens_end(self.input())
        }
    }

    pub proof fn lemma_count(&self)
        requires
            self.wf(),
        ensures
            0 <= self.count() <= tokens(self.input()).len(),
            self.count() < tokens(self.input()).len() ==> !self.finished(),
    {
    }

    pub fn new(source: &str) -> (r: Lexer)
        requires
            source@.len() < usize::MAX,
        ensures
            r.wf(),
            r.input() == source@,
            r.count() == 0,
            !r.finished(),
    {
        let r = Lexer {
            reader: StrRead::new(source),
            previous_token: None,
            nesting_level: 0,
            finished: false,
            count: Ghost(0),
        };
        assert(tokens(source@).skip(0) =~= tokens(source@));
        r
    }

    pub fn into_iter(self) -> (r: IterMut)
        requires
            self.wf(),
        ensures
            r.lexer() == self,
    {
        IterMut::new(self)
    }

    /// The position reached: after the last token handed out, or where the tokens
    /// ended once that has been reported.
    pub fn position(&self) -> (r: Position)
        requires
            self.wf(),
        ensures
            self.finished() ==> r == position_at(self.input(), tokens_end(self.input())),
    {
        *self.reader.position()
    }

    fn is_escaped(&self) -> (r: bool)
        requires
            self.reader.wf(),
        ensures
            r == escaped_at(self.input(), self.reader.offset()),
    {
        matches!(self.reader.peek_char(), Some('$')) && matches!(
            self.reader.peek_nth_char(1),
            Some('$')
        )
    }

    /// The next token, with the position where it starts, or `None` once the tokens
    /// have run out.
    pub fn next_token(&mut self) -> (r: Option<(Token, Position)>)
        requires
            old(self).wf(),
        ensures
            final(self).wf(),
            final(self).input() == old(self).input(),
            old(self).count() < tokens(old(self).input()).len() ==> {
                &&& r is Some
                &&& (r->0).0@ == tokens(old(self).input())[old(self).count()].0
                &&& (r->0).1 == position_at(
                    old(self).input(),
                    tokens(old(self).input())[old(self).count()].1,
                )
                &&& final(self).count() == old(self).count() + 1
                &&& !final(self).finished()
            },
            old(self).count() >= tokens(old(self).input()).len() ==> {
                &&& r is None
                &&& final(self).count() == old(self).count()
                &&& final(self).finished()
            },
    {
        if self.finished {
            return None;
        }
        let ghost s = self.input();
        let ghost st = self.state();
        proof {
            self.reader.lemma_offset();
            lemma_text_run_bounds(s, st.pos);
        }
        let start = *self.reader.position();
        let is_param = self.nesting_level > 0 || matches!(self.previous_token, Some(Token::DollarSign));
        let token = if is_param {
            self.read_param()
        } else {
            let opens = matches!(self.reader.peek_char(), Some('$')) && match self.reader.peek_nth_char(1) {
                Some(c) => c != '$',
                None => false,
            };
            if opens {
                self.read_param()
            } else {
                self.read_text()
            }
        };
        proof {
            assert(in_param(st) == is_param);
        }
        match token {
            None => {
                proof {
                    assert(lex_step(s, st) is None);
                    assert(lex_from(s, st) =~= Seq::<(TokenView, int)>::empty());
                    assert(tokens(s).skip(self.count@).len() == 0);
                }
                self.finished = true;
                None
            },
            Some(t) => {
                proof {
                    lemma_step_progress(s, st);
                    assert(lex_from(s, st) == seq![(t@, st.pos)] + lex_from(s, (lex_step(s, st)->0).1));
                    assert(tokens(s).skip(self.count@)[0] == (t@, st.pos));
                    assert(tokens(s).skip(self.count@ + 1) =~= tokens(s).skip(self.count@).drop_first());
                }
                self.nesting_level = match t {
                    Token::OpenBrace => self.nesting_level + 1,
                    Token::CloseBrace => if self.nesting_level > 0 {
                        self.nesting_level - 1
                    } else {
                        0
                    },
                    _ => self.nesting_level,
                };
                self.previous_token = Some(t.duplicate());
                self.count = Ghost(self.count@ + 1);
                proof {
                    let next = (lex_step(s, st)->0).1;
                    assert(self.state() == next);
                    assert(lex_from(s, self.state()) =~= tokens(s).skip(self.count@));
                }
                Some((t, start))
            },
        }
    }

    fn read_text(&mut self) -> (r: Option<Token>)
        requires
            old(self).reader.wf(),
        ensures
            final(self).reader.wf(),
            final(self).input() == old(self).input(),
            final(self).previous_token == old(self).previous_token,
            final(self).nesting_level == old(self).nesting_level,
            final(self).finished == old(self).finished,
            final(self).count == old(self).count,
            ({
                let (t, j) = text_run(old(self).input(), old(self).reader.offset());
                &&& final(self).reader.offset() == j
                &&& if t.len() > 0 {
                    r is Some && r->0@ == TokenView::Text(t)
                } else {
                    r is None
                }
            }),
    {
        let ghost s = self.input();
        let ghost i0 = self.reader.offset();
        let mut text = String::new();
        proof {
            self.reader.lemma_offset();
        }
        loop
            invariant
                self.reader.wf(),
                self.input() == s,
                s == old(self).input(),
                i0 == old(self).reader.offset(),
                self.previous_token == old(self).previous_token,
                self.nesting_level == old(self).nesting_level,
                self.finished == old(self).finished,
                self.count == old(self).count,
                0 <= i0 <= self.reader.offset() <= s.len(),
                text_run(s, i0) == (text@ + text_run(s, self.reader.offset()).0, text_run(
                    s,
                    self.reader.offset(),
                ).1),
                text@.len() == 0 <==> self.reader.offset() == i0,
            decreases s.len() - self.reader.offset(),
        {
            let ghost i = self.reader.offset();
            let ghost before = text@;
            let escaped = self.is_escaped();
            let lone = !escaped && matches!(self.reader.peek_char(), Some('$')) && matches!(
                self.reader.peek_nth_char(1),
                None
            );
            if escaped {
                self.reader.consume_char();
                self.reader.consume_char();
                text.append("$");
            } else if lone {
                self.reader.consume_char();
                text.append("$");
            }
            let ghost i1 = self.reader.offset();
            let ghost dollar: Seq<char> = if escape_len(s, i) > 0 {
                seq!['$']
            } else {
                Seq::empty()
            };
            proof {
                reveal_strlit("$");
                assert(i1 == i + escape_len(s, i));
                assert(text@ =~= before + dollar);
            }
            let run = self.reader.consume_while(
                not_dollar
            );
            let ghost j = self.reader.offset();
            proof {
                lemma_scan_exact(s, i1, j, CharClass::NotDollar);
            }
            if run.as_str().is_empty() {
                proof {
                    assert(text_run(s, i) == (dollar, i1));
                    assert(text_run(s, i0).0 =~= text@);
                }
                if text.as_str().is_empty() {
                    return None;
                } else {
                    return Some(Token::Text(text));
                }
            }
            text.append(run.as_str());
            proof {
                assert(text_run(s, i) == (dollar + s.subrange(i1, j) + text_run(s, j).0, text_run(
                    s,
                    j,
                ).1));
                assert(text@ + text_run(s, j).0 =~= before + text_run(s, i).0);
            }
        }
    }

    fn read_param(&mut self) -> (r: Option<Token>)
        requires
            old(self).reader.wf(),
        ensures
            final(self).reader.wf(),
            final(self).input() == old(self).input(),
            final(self).previous_token == old(self).previous_token,
            final(self).nesting_level == old(self).nesting_level,
            final(self).finished == old(self).finished,
            final(self).count == old(self).count,
            match param_token(
                old(self).input(),
                old(self).reader.offset(),
                token_view(old(self).previous_token),
            ) {
                None => r is None && final(self).reader.offset() == old(self).reader.offset(),
                Some((t, j)) => r is Some && r->0@ == t && final(self).reader.offset() == j,
            },
    {
        let ghost s = self.input();
        let ghost i = self.reader.offset();
        let next_char = match self.reader.peek_char() {
            None => {
                return None;
            },
            Some(c) => c,
        };
        let can_be_identifier = matches!(
            self.previous_token,
            Some(Token::DollarSign) | Some(Token::OpenBrace) | Some(Token::PoundSign) | Some(
                Token::ExclamationMark,
            )
        );
        proof {
            assert(can_be_identifier == opens_identifier(token_view(self.previous_token)));
        }
        let is_escaped = self.is_escaped();
        if next_char == '$' && !is_escaped {
            self.reader.consume_char();
            return Some(Token::DollarSign);
        }
        match punctuation_token(next_char) {
            Some(t) => {
                self.reader.consume_char();
                return Some(t);
            },
            None => {},
        }
        if can_be_identifier && is_numeric(next_char) {
            let text = self.reader.consume_while(
                is_numeric
            );
            proof {
                lemma_scan_exact(s, i, self.reader.offset(), CharClass::Numeric);
            }
            let digits = chars_of(text.as_str());
            return Some(Token::Index(parse_index(&digits)));
        }
        if can_be_identifier && (is_alphanumeric(next_char) || next_char == '_') {
            let name = self.reader.consume_while(
                name_char
            );
            proof {
                lemma_scan_exact(s, i, self.reader.offset(), CharClass::NameChar);
            }
            return Some(Token::Identifier(name));
        }
        let text = self.reader.consume_while(
            not_close_or_newline
        );
        proof {
            lemma_scan_exact(s, i, self.reader.offset(), CharClass::NotCloseOrNewline);
        }
        if text.as_str().is_empty() {
            return None;
        }
        Some(Token::Text(collapse_escapes(&text)))
    }
}

/// Turns each `$$` pair of a payload into one `$`.
fn collapse_escapes(text: &String) -> (r: String)
    ensures
        r@ == collapse_dollars(text@),
{
    let chars = chars_of(text.as_str());
    let mut r = String::new();
    let mut i: usize = 0;
    assert(chars@.skip(0) =~= chars@);
    assert(Seq::<char>::empty() + collapse_dollars(chars@) =~= collapse_dollars(chars@));
    while i < chars.len()
        invariant
            chars@ == text@,
            0 <= i <= chars@.len(),
            collapse_dollars(text@) == r@ + collapse_dollars(chars@.skip(i as int)),
        decreases chars@.len() - i,
    {
        let ghost rest = chars@.skip(i as int);
        let ghost before = r@;
        if chars[i] == '$' && i + 1 < chars.len() && chars[i + 1] == '$' {
            push_char(&mut r, '$');
            proof {
                assert(rest.skip(2) =~= chars@.skip(i + 2));
                assert(r@ + collapse_dollars(chars@.skip(i + 2)) =~= before + collapse_dollars(rest));
            }
            i = i + 2;
        } else {
            push_char(&mut r, chars[i]);
            proof {
                assert(rest.drop_first() =~= chars@.skip(i + 1));
                assert(r@ + collapse_dollars(chars@.skip(i + 1)) =~= before + collapse_dollars(rest));
            }
            i = i + 1;
        }
    }
    proof {
        assert(chars@.skip(i as int) =~= Seq::<char>::empty());
        assert(r@ + Seq::<char>::empty() =~= r@);
    }
    r
}

fn not_dollar(c: char) -> (r: bool)
    ensures
        r == in_class(CharClass::NotDollar, c),
{
    c != '$'
}

fn name_char(c: char) -> (r: bool)
    ensures
        r == in_class(CharClass::NameChar, c),
{
    is_alphanumeric(c) || c == '_'
}

fn not_close_or_newline(c: char) -> (r: bool)
    ensures
        r == in_class(CharClass::NotCloseOrNewline, c),
{
    c != '}' && c != '\n'
}

fn punctuation_token(c: char) -> (r: Option<Token>)
    ensures
        token_view(r) == punctuation(c),
{
    if c == '{' {
        Some(Token::OpenBrace)
    } else if c == '}' {
        Some(Token::CloseBrace)
    } else if c == '!' {
        Some(Token::ExclamationMark)
    } else if c == ':' {
        Some(Token::Colon)
    } else if c == '-' {
        Some(Token::Dash)
    } else if c == '+' {
        Some(Token::Plus)
    } else if c == '?' {
        Some(Token::QuestionMark)
    } else if c == '#' {
        Some(Token::PoundSign)
    } else if c == '^' {
        Some(Token::Caret)
    } else if c == ',' {
        Some(Token::Comma)
    } else if c == '~' {
        Some(Token::Tilde)
    } else {
        None
    }
}

/// Hands out the tokens of a [`Lexer`] one at a time.
pub struct IterMut {
    lexer: Lexer,
}

impl IterMut {
    pub closed spec fn lexer(&self) -> Lexer {
        self.lexer
    }

    fn new(lexer: Lexer) -> (r: IterMut)
        ensures
            r.lexer() == lexer,
    {
        IterMut { lexer }
    }

    /// The next token of the lexer, as [`Lexer::next_token`] gives it.
    pub fn next(&mut self) -> (r: Option<(Token, Position)>)
        requires
            old(self).lexer().wf(),
        ensures
            final(self).lexer().wf(),
            final(self).lexer().input() == old(self).lexer().input(),
            old(self).lexer().count() < tokens(old(self).lexer().input()).len() ==> {
                &&& r is Some
                &&& (r->0).0@ == tokens(old(self).lexer().input())[old(self).lexer().count()].0
                &&& (r->0).1 == position_at(
                    old(self).lexer().input(),
                    tokens(old(self).lexer().input())[old(self).lexer().count()].1,
                )
                &&& final(self).lexer().count() == old(self).lexer().count() + 1
            },
            old(self).lexer().count() >= tokens(old(self).lexer().input()).len() ==> {
                &&& r is None
                &&& final(self).lexer().count() == old(self).lexer().count()
            },
    {
        self.lexer.next_token()
    }
}

} // verus!
