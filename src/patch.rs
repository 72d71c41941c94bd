//! The path language: dot-separated addresses into a document tree, and the
//! point patches and reads made through them.
use vstd::prelude::*;
use crate::error::SyntaxError;
use crate::text::{
    all_digits, decimal, digit_char, digits_value, is_digit, join_on, join_seq,
    lemma_digits_value_mono, lemma_join_split, owned, parse_usize, parse_usize_spec, push_char,
    push_decimal, split_on, split_seq, views,
};

verus! {

broadcast use vstd::std_specs::vec::group_vec_axioms;

/// A path to a property in a document.
/// - `.` separates nested properties.
/// - `*` matches every child at that level.
/// - `**` matches descendants at any depth, up to the next literal.
/// - `0`, `1`, ... address array elements.
/// - `"key"` addresses an object property literally.
#[derive(Debug, Clone, PartialEq, Eq, Hash)]
pub struct DotPathStr<'a>(pub &'a str);

/// The two kinds of wildcard.
#[derive(Clone, Copy, Debug, PartialEq, Eq, Hash)]
pub enum Wildcard {
    /// `*`: every child, once.
    Once,
    /// `**`: every descendant, until the next literal token is found.
    UntilNext,
}

/// One token of a path.
#[derive(Clone, Debug, PartialEq, Eq, Hash)]
pub enum DotToken {
    /// A property name.
    Property(String),
    /// An array index.
    Index(usize),
    /// A wildcard.
    Wildcard(Wildcard),
}

/// The mathematical value of a [`DotToken`].
pub enum Token {
    Prop(Seq<char>),
    Idx(usize),
    Once,
    UntilNext,
}

impl View for DotToken {
    type V = Token;

    open spec fn view(&self) -> Token {
        match self {
            DotToken::Property(p) => Token::Prop(p@),
            DotToken::Index(i) => Token::Idx(*i),
            DotToken::Wildcard(Wildcard::Once) => Token::Once,
            DotToken::Wildcard(Wildcard::UntilNext) => Token::UntilNext,
        }
    }
}

pub open spec fn tviews(s: Seq<DotToken>) -> Seq<Token> {
    s.map_values(|t: DotToken| t@)
}

pub open spec fn quoted(seg: Seq<char>) -> bool {
    seg.len() >= 2 && seg[0] == '"' && seg.last() == '"'
}

/// The token that one segment of a path stands for.
pub open spec fn parse_token_spec(seg: Seq<char>) -> Token {
    if quoted(seg) {
        Token::Prop(seg.subrange(1, seg.len() - 1))
    } else if seg == seq!['*', '*'] {
        Token::UntilNext
    } else if seg == seq!['*'] {
        Token::Once
    } else {
        match parse_usize_spec(seg) {
            Some(n) => Token::Idx(n),
            None => Token::Prop(seg),
        }
    }
}

/// The tokens of a dotted path.
pub open spec fn tokenize_spec(s: Seq<char>) -> Seq<Token> {
    split_seq(s, '.').map_values(|seg: Seq<char>| parse_token_spec(seg))
}

/// The text of one token.
pub open spec fn token_text(t: Token) -> Seq<char> {
    match t {
        Token::Prop(p) => p,
        Token::Idx(n) => decimal(n as nat),
        Token::Once => seq!['*'],
        Token::UntilNext => seq!['*', '*'],
    }
}

/// The dotted form of a token sequence.
pub open spec fn render(ts: Seq<Token>) -> Seq<char> {
    join_seq(ts.map_values(|t: Token| token_text(t)), '.')
}

/// A segment that reads back as itself: not quoted, and when it is a
/// number, written in plain decimal without a sign or leading zero.
pub open spec fn canonical_segment(seg: Seq<char>) -> bool {
    &&& !quoted(seg)
    &&& parse_usize_spec(seg) is Some ==> all_digits(seg) && (seg.len() == 1 || seg[0] != '0')
}

proof fn lemma_digits_value_pos(d: Seq<char>)
    requires
        d.len() > 0,
        all_digits(d),
        d[0] != '0',
    ensures
        digits_value(d) >= 1,
{
    lemma_digits_value_mono(d, 1);
    let p = d.subrange(0, 1);
    assert(p.drop_last() =~= Seq::<char>::empty());
    assert(is_digit(d[0]));
}

proof fn lemma_decimal_digits(d: Seq<char>)
    requires
        d.len() > 0,
        all_digits(d),
        d.len() == 1 || d[0] != '0',
    ensures
        decimal(digits_value(d)) == d,
    decreases d.len(),
{
    let c = d.last();
    assert(is_digit(d[d.len() - 1]));
    let cv = ((c as u32) - ('0' as u32)) as nat;
    assert(digit_char(cv) == c);
    if d.len() == 1 {
        assert(d.drop_last() =~= Seq::<char>::empty());
        assert(digits_value(d.drop_last()) == 0);
        assert(digits_value(d) == cv);
        assert(decimal(cv) =~= d);
    } else {
        let p = d.drop_last();
        assert(p[0] == d[0]);
        assert(all_digits(p)) by {
            assert forall|i: int| 0 <= i < p.len() implies is_digit(#[trigger] p[i]) by {
                assert(p[i] == d[i]);
            }
        }
        lemma_decimal_digits(p);
        lemma_digits_value_pos(p);
        let v = digits_value(d);
        let pv = digits_value(p);
        assert(v == pv * 10 + cv);
        assert(v / 10 == pv && v % 10 == cv) by (nonlinear_arith)
            requires
                v == pv * 10 + cv,
                cv < 10,
        ;
        assert(d =~= p.push(c));
    }
}

proof fn lemma_canonical_text(seg: Seq<char>)
    requires
        canonical_segment(seg),
    ensures
        token_text(parse_token_spec(seg)) == seg,
{
    if seg == seq!['*', '*'] || seg == seq!['*'] {
    } else if let Some(n) = parse_usize_spec(seg) {
        assert(seg.len() > 0 && seg[0] != '+') by {
            assert(all_digits(seg));
            if seg.len() > 0 {
                assert(is_digit(seg[0]));
            }
        }
        lemma_decimal_digits(seg);
    }
}

/// Rendering the tokens of a path whose segments are all canonical gives
/// back the path.
pub proof fn lemma_tokenize_render(s: Seq<char>)
    requires
        forall|i: int|
            0 <= i < split_seq(s, '.').len() ==> canonical_segment(#[trigger] split_seq(s, '.')[i]),
    ensures
        render(tokenize_spec(s)) == s,
{
    let segs = split_seq(s, '.');
    let texts = tokenize_spec(s).map_values(|t: Token| token_text(t));
    assert forall|i: int| 0 <= i < segs.len() implies #[trigger] texts[i] == segs[i] by {
        lemma_canonical_text(segs[i]);
    }
    assert(texts =~= segs);
    lemma_join_split(s, '.');
}

/// A literal (quoted) segment, if `seg` is one.
fn parse_quoted_property(seg: &str) -> (r: Option<DotToken>)
    ensures
        quoted(seg@) ==> (r matches Some(t) && t@ == Token::Prop(seg@.subrange(1, seg@.len() - 1))),
        !quoted(seg@) ==> r is None,
{
    let n = seg.unicode_len();
    if n >= 2 && seg.get_char(0) == '"' && seg.get_char(n - 1) == '"' {
        Some(DotToken::Property(owned(seg.substring_char(1, n - 1))))
    } else {
        None
    }
}

/// A wildcard token, if `seg` is `*` or `**`.
fn parse_wild_once_or_until_next(seg: &str) -> (r: Option<DotToken>)
    ensures
        seg@ == seq!['*', '*'] ==> (r matches Some(t) && t@ == Token::UntilNext),
        seg@ == seq!['*'] ==> (r matches Some(t) && t@ == Token::Once),
        seg@ != seq!['*', '*'] && seg@ != seq!['*'] ==> r is None,
{
    let n = seg.unicode_len();
    if n == 2 && seg.get_char(0) == '*' && seg.get_char(1) == '*' {
        assert(seg@ =~= seq!['*', '*']);
        Some(DotToken::Wildcard(Wildcard::UntilNext))
    } else if n == 1 && seg.get_char(0) == '*' {
        assert(seg@ =~= seq!['*']);
        Some(DotToken::Wildcard(Wildcard::Once))
    } else {
        proof {
            if seg@ == seq!['*', '*'] {
                assert(seg@[0] == '*' && seg@[1] == '*');
            }
            if seg@ == seq!['*'] {
                assert(seg@[0] == '*');
            }
        }
        None
    }
}

/// The token for one segment of a path.
fn parse_token(seg: &str) -> (r: Result<DotToken, SyntaxError>)
    ensures
        r matches Ok(t) && t@ == parse_token_spec(seg@),
{
    if let Some(q) = parse_quoted_property(seg) {
        return Ok(q);
    }
    if let Some(w) = parse_wild_once_or_until_next(seg) {
        return Ok(w);
    }
    match parse_usize(seg) {
        Some(n) => Ok(DotToken::Index(n)),
        None => Ok(DotToken::Property(owned(seg))),
    }
}

impl<'a> DotPathStr<'a> {
    /// The tokens of this path, one per `.`-separated segment.
    pub fn tokenize(&self) -> (r: Result<Vec<DotToken>, SyntaxError>)
        ensures
            r matches Ok(ts) && tviews(ts@) == tokenize_spec(self.0@),
    {
        let segs = split_on(self.0, '.');
        let mut out: Vec<DotToken> = Vec::new();
        let mut i: usize = 0;
        while i < segs.len()
            invariant
                i <= segs@.len(),
                views(segs@) == split_seq(self.0@, '.'),
                tviews(out@) =~= split_seq(self.0@, '.').subrange(0, i as int).map_values(
                    |seg: Seq<char>| parse_token_spec(seg),
                ),
            decreases segs@.len() - i,
        {
            let t = parse_token(segs[i].as_str());
            match t {
                Ok(t) => {
                    assert(views(segs@)[i as int] == segs@[i as int]@);
                    let ghost old_out = out@;
                    out.push(t);
                    assert(tviews(out@) =~= tviews(old_out).push(out@.last()@));
                    assert(split_seq(self.0@, '.').subrange(0, i + 1).map_values(
                        |seg: Seq<char>| parse_token_spec(seg),
                    ) =~= split_seq(self.0@, '.').subrange(0, i as int).map_values(
                        |seg: Seq<char>| parse_token_spec(seg),
                    ).push(parse_token_spec(split_seq(self.0@, '.')[i as int])));
                },
                Err(e) => {
                    return Err(e);
                },
            }
            i = i + 1;
        }
        assert(split_seq(self.0@, '.').subrange(0, i as int) =~= split_seq(self.0@, '.'));
        Ok(out)
    }
}

impl Wildcard {
    /// `*` or `**`.
    pub fn to_string(&self) -> (r: String)
        ensures
            *self == Wildcard::Once ==> r@ == seq!['*'],
            *self == Wildcard::UntilNext ==> r@ == seq!['*', '*'],
    {
        let mut s = String::new();
        push_char(&mut s, '*');
        if let Wildcard::UntilNext = self {
            push_char(&mut s, '*');
        }
        s
    }
}

impl DotToken {
    /// The text of this token.
    pub fn to_string(&self) -> (r: String)
        ensures
            r@ == token_text(self@),
    {
        match self {
            DotToken::Property(p) => owned(p.as_str()),
            DotToken::Index(i) => {
                let mut s = String::new();
                push_decimal(&mut s, *i);
                assert(s@ =~= decimal(*i as nat));
                s
            },
            DotToken::Wildcard(w) => w.to_string(),
        }
    }

    /// A copy of this token.
    pub fn duplicate(&self) -> (r: DotToken)
        ensures
            r@ == self@,
    {
        match self {
            DotToken::Property(p) => DotToken::Property(owned(p.as_str())),
            DotToken::Index(i) => DotToken::Index(*i),
            DotToken::Wildcard(w) => DotToken::Wildcard(*w),
        }
    }

    /// Joins this token and the tokens of `path` with dots.
    pub fn prepend_to(self, path: &Vec<DotToken>) -> (r: String)
        ensures
            r@ == render(seq![self@] + tviews(path@)),
    {
        let mut all: Vec<DotToken> = Vec::new();
        all.push(self);
        let mut i: usize = 0;
        while i < path.len()
            invariant
                i <= path@.len(),
                tviews(all@) =~= seq![self@] + tviews(path@.subrange(0, i as int)),
            decreases path@.len() - i,
        {
            let ghost old_all = all@;
            all.push(path[i].duplicate());
            assert(tviews(all@) =~= tviews(old_all).push(path@[i as int]@));
            assert(tviews(path@.subrange(0, i + 1)) =~= tviews(path@.subrange(0, i as int)).push(
                path@[i as int]@,
            ));
            i = i + 1;
        }
        assert(path@.subrange(0, i as int) =~= path@);
        render_tokens(&all)
    }

    /// The index, when this token is one.
    pub fn as_index(&self) -> (r: Option<&usize>)
        ensures
            match self@ {
                Token::Idx(n) => r matches Some(x) && *x == n,
                _ => r is None,
            },
    {
        if let DotToken::Index(v) = self {
            Some(v)
        } else {
            None
        }
    }
}

/// The dotted form of `ts`.
pub fn render_tokens(ts: &Vec<DotToken>) -> (r: String)
    ensures
        r@ == render(tviews(ts@)),
{
    let mut texts: Vec<String> = Vec::new();
    let mut i: usize = 0;
    while i < ts.len()
        invariant
            i <= ts@.len(),
            views(texts@) =~= tviews(ts@).subrange(0, i as int).map_values(
                |t: Token| token_text(t),
            ),
        decreases ts@.len() - i,
    {
        let s = ts[i].to_string();
        let ghost old_texts = texts@;
        texts.push(s);
        assert(views(texts@) =~= views(old_texts).push(s@));
        assert(tviews(ts@).subrange(0, i + 1).map_values(|t: Token| token_text(t))
            =~= tviews(ts@).subrange(0, i as int).map_values(|t: Token| token_text(t)).push(
            token_text(ts@[i as int]@),
        ));
        i = i + 1;
    }
    assert(tviews(ts@).subrange(0, i as int) =~= tviews(ts@));
    join_on(&texts, '.')
}

/// The tokens of a path, handed out one at a time.
#[derive(Clone)]
pub struct DotPathIterator {
    tokens: Vec<DotToken>,
    index: usize,
}

impl DotPathIterator {
    pub closed spec fn tokens_view(&self) -> Seq<Token> {
        tviews(self.tokens@)
    }

    pub closed spec fn position(&self) -> nat {
        self.index as nat
    }

    /// An iterator over the tokens of `dot_path`, at its start.
    pub fn try_from(dot_path: &DotPathStr) -> (r: Result<DotPathIterator, SyntaxError>)
        ensures
            r matches Ok(it) && it.tokens_view() == tokenize_spec(dot_path.0@) && it.position()
                == 0,
    {
        match dot_path.tokenize() {
            Ok(tokens) => Ok(DotPathIterator { tokens, index: 0 }),
            Err(e) => Err(e),
        }
    }

    /// The next token, if any is left.
    pub fn next(&mut self) -> (r: Option<DotToken>)
        ensures
            final(self).tokens_view() == old(self).tokens_view(),
            old(self).position() < old(self).tokens_view().len() ==> (r matches Some(t) && t@
                == old(self).tokens_view()[old(self).position() as int] && final(self).position()
                == old(self).position() + 1),
            old(self).position() >= old(self).tokens_view().len() ==> r is None
                && final(self).position() == old(self).position(),
    {
        if self.index < self.tokens.len() {
            let t = self.tokens[self.index].duplicate();
            self.index = self.index + 1;
            Some(t)
        } else {
            None
        }
    }

    /// The dotted form of all the tokens.
    pub fn to_string(&self) -> (r: String)
        ensures
            r@ == render(self.tokens_view()),
    {
        render_tokens(&self.tokens)
    }
}

} // verus!
