//! Splitting text into words and classifying each word as a token.

use vstd::prelude::*;
use vstd::string::*;
use crate::text::{chars_of, is_whitespace, is_whitespace_char, same_text, texts};

verus! {

/// The mathematical model of a [`Token`].
pub enum TokenView {
    LParen,
    RParen,
    Nil,
    Symbol(Seq<char>),
    Integer(int),
    Bool(bool),
}

/// One lexical unit.
#[derive(Debug)]
pub enum Token {
    LParen,
    RParen,
    Nil,
    Symbol(String),
    Integer(i32),
    Bool(bool),
}

impl View for Token {
    type V = TokenView;

    open spec fn view(&self) -> TokenView {
        match self {
            Token::LParen => TokenView::LParen,
            Token::RParen => TokenView::RParen,
            Token::Nil => TokenView::Nil,
            Token::Symbol(s) => TokenView::Symbol(s@),
            Token::Integer(n) => TokenView::Integer(*n as int),
            Token::Bool(b) => TokenView::Bool(*b),
        }
    }
}

impl Clone for Token {
    fn clone(&self) -> (r: Token)
        ensures
            r@ == self@,
    {
        match self {
            Token::LParen => Token::LParen,
            Token::RParen => Token::RParen,
            Token::Nil => Token::Nil,
            Token::Symbol(s) => Token::Symbol(s.clone()),
            Token::Integer(n) => Token::Integer(*n),
            Token::Bool(b) => Token::Bool(*b),
        }
    }
}

impl PartialEq for Token {
    fn eq(&self, other: &Token) -> (r: bool) {
        match (self, other) {
            (Token::LParen, Token::LParen) => true,
            (Token::RParen, Token::RParen) => true,
            (Token::Nil, Token::Nil) => true,
            (Token::Symbol(a), Token::Symbol(b)) => *a == *b,
            (Token::Integer(a), Token::Integer(b)) => *a == *b,
            (Token::Bool(a), Token::Bool(b)) => *a == *b,
            _ => false,
        }
    }
}

impl vstd::std_specs::cmp::PartialEqSpecImpl for Token {
    open spec fn obeys_eq_spec() -> bool {
        true
    }

    open spec fn eq_spec(&self, other: &Token) -> bool {
        self@ == other@
    }
}

/// The views of a sequence of tokens.
pub open spec fn token_views(tokens: Seq<Token>) -> Seq<TokenView> {
    tokens.map_values(|t: Token| t@)
}

/// Whether `c` is one of the digits `0` to `9`.
pub open spec fn is_digit(c: char) -> bool {
    48 <= c as u32 <= 57
}

/// Whether `s` holds digits only.
pub open spec fn all_digits(s: Seq<char>) -> bool {
    forall|i: int| 0 <= i < s.len() ==> is_digit(#[trigger] s[i])
}

/// The number that a sequence of decimal digits denotes.
pub open spec fn digits_value(s: Seq<char>) -> nat
    decreases s.len(),
{
    if s.len() == 0 {
        0
    } else {
        digits_value(s.drop_last()) * 10 + (s.last() as u32 - 48) as nat
    }
}

/// The integer that `s` denotes, if `s` is an optional `-` followed by one
/// or more decimal digits and the number fits in 32 bits.
pub open spec fn integer_literal(s: Seq<char>) -> Option<int> {
    let negative = s.len() > 0 && s[0] == '-';
    let body = if negative { s.skip(1) } else { s };
    let magnitude = digits_value(body) as int;
    let n = if negative { -magnitude } else { magnitude };
    if body.len() > 0 && all_digits(body) && i32::MIN <= n <= i32::MAX {
        Some(n)
    } else {
        None
    }
}

/// The token that a non-empty word stands for.
pub open spec fn classify(word: Seq<char>) -> TokenView {
    if word == "("@ {
        TokenView::LParen
    } else if word == ")"@ {
        TokenView::RParen
    } else if word == "true"@ {
        TokenView::Bool(true)
    } else if word == "false"@ {
        TokenView::Bool(false)
    } else if word == "nil"@ {
        TokenView::Nil
    } else {
        match integer_literal(word) {
            Some(n) => TokenView::Integer(n),
            None => TokenView::Symbol(word),
        }
    }
}

/// Whether `c` is a parenthesis.
pub open spec fn is_paren(c: char) -> bool {
    c == '(' || c == ')'
}

/// A pending word as a list of words: nothing if it is empty.
pub open spec fn flush(word: Seq<char>) -> Seq<Seq<char>> {
    if word.len() == 0 {
        Seq::empty()
    } else {
        seq![word]
    }
}

/// The words of `text`, read after the characters of `word` that no
/// boundary has closed yet.
pub open spec fn split_from(text: Seq<char>, word: Seq<char>) -> Seq<Seq<char>>
    decreases text.len(),
{
    if text.len() == 0 {
        flush(word)
    } else if is_whitespace(text[0]) {
        flush(word) + split_from(text.skip(1), Seq::empty())
    } else if is_paren(text[0]) {
        flush(word) + seq![seq![text[0]]] + split_from(text.skip(1), Seq::empty())
    } else {
        split_from(text.skip(1), word.push(text[0]))
    }
}

/// The words of `text`: maximal runs of characters that are neither
/// whitespace nor parentheses, and each parenthesis by itself.
pub open spec fn split(text: Seq<char>) -> Seq<Seq<char>> {
    split_from(text, Seq::empty())
}

/// The tokens of `text`.
pub open spec fn tokens_of(text: Seq<char>) -> Seq<TokenView> {
    split(text).map_values(|word: Seq<char>| classify(word))
}

/// Whether no character of `word` ends a word.
pub open spec fn is_plain(word: Seq<char>) -> bool {
    forall|i: int| 0 <= i < word.len() ==> !is_whitespace(#[trigger] word[i]) && !is_paren(word[i])
}

/// Whether `word` is a parenthesis by itself, or a non-empty run of
/// characters that are neither whitespace nor parentheses.
pub open spec fn is_word(word: Seq<char>) -> bool {
    word.len() > 0 && (is_plain(word) || (word.len() == 1 && is_paren(word[0])))
}

/// The words of `words`, joined without anything between them.
pub open spec fn concat(words: Seq<Seq<char>>) -> Seq<char>
    decreases words.len(),
{
    if words.len() == 0 {
        Seq::empty()
    } else {
        words[0] + concat(words.skip(1))
    }
}

/// `text` without its whitespace.
pub open spec fn visible(text: Seq<char>) -> Seq<char>
    decreases text.len(),
{
    if text.len() == 0 {
        Seq::empty()
    } else if is_whitespace(text[0]) {
        visible(text.skip(1))
    } else {
        seq![text[0]] + visible(text.skip(1))
    }
}

/// Splitting yields words and nothing else.
pub proof fn lemma_split_yields_words(text: Seq<char>, pending: Seq<char>)
    requires
        is_plain(pending),
    ensures
        forall|i: int|
            0 <= i < split_from(text, pending).len() ==> is_word(
                #[trigger] split_from(text, pending)[i],
            ),
    decreases text.len(),
{
    let words = split_from(text, pending);
    if text.len() == 0 {
        assert forall|i: int| 0 <= i < words.len() implies is_word(#[trigger] words[i]) by {
            assert(words[i] == pending);
        }
    } else if is_whitespace(text[0]) {
        let tail = split_from(text.skip(1), Seq::empty());
        lemma_split_yields_words(text.skip(1), Seq::empty());
        assert forall|i: int| 0 <= i < words.len() implies is_word(#[trigger] words[i]) by {
            if i >= flush(pending).len() {
                assert(words[i] == tail[i - flush(pending).len()]);
            } else {
                assert(words[i] == pending);
            }
        }
    } else if is_paren(text[0]) {
        let tail = split_from(text.skip(1), Seq::empty());
        let head = flush(pending) + seq![seq![text[0]]];
        lemma_split_yields_words(text.skip(1), Seq::empty());
        assert forall|i: int| 0 <= i < words.len() implies is_word(#[trigger] words[i]) by {
            if i >= head.len() {
                assert(words[i] == tail[i - head.len()]);
            } else if i < flush(pending).len() {
                assert(words[i] == pending);
            } else {
                assert(words[i] == seq![text[0]]);
            }
        }
    } else {
        let longer = pending.push(text[0]);
        assert forall|i: int| 0 <= i < longer.len() implies !is_whitespace(#[trigger] longer[i])
            && !is_paren(longer[i]) by {
            if i < pending.len() {
                assert(longer[i] == pending[i]);
            }
        }
        lemma_split_yields_words(text.skip(1), longer);
        assert(words == split_from(text.skip(1), longer));
    }
}

/// Joining two lists of words joins what each of them joins to.
pub proof fn lemma_concat_append(a: Seq<Seq<char>>, b: Seq<Seq<char>>)
    ensures
        concat(a + b) == concat(a) + concat(b),
    decreases a.len(),
{
    if a.len() == 0 {
        assert(a + b =~= b);
        assert(concat(a) + concat(b) =~= concat(b));
    } else {
        assert((a + b).skip(1) =~= a.skip(1) + b);
        lemma_concat_append(a.skip(1), b);
        assert(concat(a + b) =~= concat(a) + concat(b));
    }
}

/// Splitting loses nothing but whitespace: the words, joined, are the text
/// without its whitespace.
pub proof fn lemma_split_keeps_visible(text: Seq<char>, pending: Seq<char>)
    ensures
        concat(split_from(text, pending)) == pending + visible(text),
    decreases text.len(),
{
    let closed = flush(pending);
    assert(concat(closed) =~= pending) by {
        if pending.len() > 0 {
            assert(closed.skip(1) =~= Seq::<Seq<char>>::empty());
            assert(concat(closed.skip(1)) =~= Seq::<char>::empty());
        }
    }
    if text.len() == 0 {
        assert(pending + visible(text) =~= pending);
    } else if is_whitespace(text[0]) {
        let tail = split_from(text.skip(1), Seq::empty());
        lemma_split_keeps_visible(text.skip(1), Seq::empty());
        lemma_concat_append(closed, tail);
        assert(concat(closed) + concat(tail) =~= pending + visible(text));
    } else if is_paren(text[0]) {
        let tail = split_from(text.skip(1), Seq::empty());
        let paren = seq![seq![text[0]]];
        lemma_split_keeps_visible(text.skip(1), Seq::empty());
        lemma_concat_append(closed + paren, tail);
        lemma_concat_append(closed, paren);
        assert(concat(paren) =~= seq![text[0]]) by {
            assert(paren.skip(1) =~= Seq::<Seq<char>>::empty());
            assert(concat(paren.skip(1)) =~= Seq::<char>::empty());
        }
        assert(concat(closed) + concat(paren) + concat(tail) =~= pending + visible(text));
    } else {
        lemma_split_keeps_visible(text.skip(1), pending.push(text[0]));
        assert(pending.push(text[0]) + visible(text.skip(1)) =~= pending + visible(text));
    }
}

/// Text without whitespace and parentheses is one word, or none if it is
/// empty.
pub proof fn lemma_split_plain_word(word: Seq<char>, pending: Seq<char>)
    requires
        is_plain(word),
    ensures
        split_from(word, pending) == flush(pending + word),
    decreases word.len(),
{
    if word.len() == 0 {
        assert(pending + word =~= pending);
    } else {
        let rest = word.skip(1);
        assert(!is_whitespace(word[0]) && !is_paren(word[0]));
        assert forall|i: int| 0 <= i < rest.len() implies !is_whitespace(#[trigger] rest[i])
            && !is_paren(rest[i]) by {
            assert(rest[i] == word[i + 1]);
        }
        lemma_split_plain_word(rest, pending.push(word[0]));
        assert(pending.push(word[0]) + rest =~= pending + word);
    }
}

/// What splitting yields: every part is a word, the words joined are the
/// text without its whitespace, and text that is a single run of plain
/// characters stays whole.
pub proof fn law_split(text: Seq<char>)
    ensures
        forall|i: int| 0 <= i < split(text).len() ==> is_word(#[trigger] split(text)[i]),
        concat(split(text)) == visible(text),
        is_plain(text) && text.len() > 0 ==> split(text) == seq![text],
{
    lemma_split_yields_words(text, Seq::empty());
    lemma_split_keeps_visible(text, Seq::empty());
    assert(Seq::<char>::empty() + visible(text) =~= visible(text));
    if is_plain(text) {
        lemma_split_plain_word(text, Seq::empty());
        assert(Seq::<char>::empty() + text =~= text);
    }
}

/// The number that a prefix of a digit sequence denotes is no larger than
/// the number that the whole denotes.
proof fn lemma_digits_value_prefix(s: Seq<char>, k: int)
    requires
        0 <= k <= s.len(),
    ensures
        digits_value(s.take(k)) <= digits_value(s),
    decreases s.len(),
{
    if k == s.len() {
        assert(s.take(k) =~= s);
    } else {
        assert(s.drop_last().take(k) =~= s.take(k));
        lemma_digits_value_prefix(s.drop_last(), k);
    }
}

/// Reads `chars` as an integer literal.
fn parse_integer(chars: &Vec<char>) -> (r: Option<i32>)
    ensures
        match r {
            Some(n) => integer_literal(chars@) == Some(n as int),
            None => integer_literal(chars@) is None,
        },
{
    let len = chars.len();
    if len == 0 {
        return None;
    }
    let negative = chars[0] == '-';
    let start: usize = if negative { 1 } else { 0 };
    if start == len {
        return None;
    }
    let ghost body = chars@.skip(start as int);
    proof {
        assert(chars@.skip(0) =~= chars@);
    }
    let mut magnitude: i64 = 0;
    let mut i: usize = start;
    while i < len
        invariant
            start <= i <= len,
            len == chars.len(),
            body == chars@.skip(start as int),
            body == (if chars@[0] == '-' { chars@.skip(1) } else { chars@ }),
            all_digits(body.take(i - start)),
            magnitude == digits_value(body.take(i - start)),
            0 <= magnitude <= 2147483648,
        decreases len - i,
    {
        let c = chars[i];
        let code: u32 = c as u32;
        if code < 48 || code > 57 {
            proof {
                assert(body[i - start] == c);
                assert(!is_digit(body[i - start]));
                assert(!all_digits(body));
            }
            return None;
        }
        let digit: i64 = (code - 48) as i64;
        proof {
            let longer = body.take(i + 1 - start);
            assert(longer.drop_last() =~= body.take(i - start));
            assert(longer.last() == c);
            assert forall|j: int| 0 <= j < longer.len() implies is_digit(#[trigger] longer[j]) by {
                if j < i - start {
                    assert(body.take(i - start)[j] == longer[j]);
                }
            }
            lemma_digits_value_prefix(body, i + 1 - start);
            assert(digits_value(longer) == magnitude * 10 + digit);
        }
        magnitude = magnitude * 10 + digit;
        if magnitude > 2147483648 {
            return None;
        }
        i += 1;
    }
    proof {
        assert(body.take(len - start) =~= body);
    }
    if negative {
        Some((-magnitude) as i32)
    } else if magnitude > 2147483647 {
        None
    } else {
        Some(magnitude as i32)
    }
}

impl Token {
    /// Classifies a non-empty word.
    pub fn from(word: &str) -> (r: Token)
        requires
            word@.len() > 0,
        ensures
            r@ == classify(word@),
    {
        if same_text(word, "(") {
            Token::LParen
        } else if same_text(word, ")") {
            Token::RParen
        } else if same_text(word, "true") {
            Token::Bool(true)
        } else if same_text(word, "false") {
            Token::Bool(false)
        } else if same_text(word, "nil") {
            Token::Nil
        } else {
            let chars = chars_of(word);
            match parse_integer(&chars) {
                Some(n) => Token::Integer(n),
                None => Token::Symbol(String::from_str(word)),
            }
        }
    }
}

/// Splits `string` into words.
pub fn split_syntax(string: &str) -> (out: Vec<String>)
    ensures
        texts(out@) == split(string@),
{
    let mut out: Vec<String> = Vec::new();
    let mut buffer = String::new();
    proof {
        assert(texts(out@) =~= Seq::empty());
        assert(string@.skip(0) =~= string@);
    }
    for c in it: string.chars()
        invariant
            it.seq() == string@,
            split(string@) =~= texts(out@) + split_from(string@.skip(it.index()), buffer@),
    {
        let ghost rest = string@.skip(it.index());
        let ghost before = texts(out@);
        let ghost word = buffer@;
        proof {
            assert(rest[0] == c);
            assert(rest.skip(1) =~= string@.skip(it.index() + 1));
        }
        if is_whitespace_char(c) {
            if !buffer.as_str().is_empty() {
                out.push(buffer);
                buffer = String::new();
            }
            proof {
                assert(texts(out@) =~= before + flush(word));
                assert(buffer@ =~= Seq::empty());
            }
        } else if c == '(' || c == ')' {
            if !buffer.as_str().is_empty() {
                out.push(buffer);
                buffer = String::new();
            }
            buffer.push(c);
            proof {
                assert(buffer@ =~= seq![c]);
            }
            out.push(buffer);
            buffer = String::new();
            proof {
                assert(texts(out@) =~= before + flush(word) + seq![seq![c]]);
                assert(buffer@ =~= Seq::empty());
            }
        } else {
            buffer.push(c);
        }
    }
    let ghost before = texts(out@);
    let ghost word = buffer@;
    if !buffer.as_str().is_empty() {
        out.push(buffer);
    }
    proof {
        assert(string@.skip(string@.len() as int) =~= Seq::empty());
        assert(texts(out@) =~= before + flush(word));
    }
    out
}

/// Splits `string` into words and classifies each.
pub fn tokenize(string: &str) -> (tokens: Vec<Token>)
    ensures
        token_views(tokens@) == tokens_of(string@),
{
    let parts = split_syntax(string);
    let mut tokens: Vec<Token> = Vec::new();
    let mut i: usize = 0;
    proof {
        lemma_split_yields_words(string@, Seq::empty());
    }
    while i < parts.len()
        invariant
            i <= parts.len(),
            texts(parts@) == split(string@),
            forall|j: int| 0 <= j < split(string@).len() ==> is_word(#[trigger] split(string@)[j]),
            token_views(tokens@) =~= tokens_of(string@).take(i as int),
        decreases parts.len() - i,
    {
        proof {
            assert(texts(parts@)[i as int] == parts@[i as int]@);
            assert(split(string@)[i as int].len() > 0);
        }
        let token = Token::from(parts[i].as_str());
        proof {
            assert(tokens_of(string@)[i as int] == token@);
            assert(token_views(tokens@.push(token)) =~= token_views(tokens@).push(token@));
        }
        tokens.push(token);
        i += 1;
    }
    proof {
        assert(texts(parts@).len() == parts@.len());
        assert(tokens_of(string@).take(i as int) =~= tokens_of(string@));
    }
    tokens
}

} // verus!
