//! Lexical tokens and the regex-driven tokenizer.
//!
//! A token is a classified piece of source text.  The regular expression that
//! splits a line into raw matches lives behind trusted items; everything that
//! follows the scan (classification, unclosed-string detection, parenthesis
//! accounting) is verified.
use vstd::prelude::*;

verus! {

/// Lexical class of a token.
#[derive(Debug, Clone, Copy, Eq, PartialEq, Structural)]
pub enum TokenType {
    SpecialTwo,
    SpecialOne,
    Text,
    Comment,
    Symbol,
}

/// One classified token: its raw text and its lexical class.
#[derive(Debug, Clone)]
pub struct Token {
    pub text: String,
    pub token_type: TokenType,
}

/// Mathematical image of a token.
pub struct SpecTok {
    pub kind: TokenType,
    pub text: Seq<char>,
}

impl View for Token {
    type V = SpecTok;

    open spec fn view(&self) -> SpecTok {
        SpecTok { kind: self.token_type, text: self.text@ }
    }
}

impl Token {
    pub fn new(text: String, token_type: TokenType) -> (r: Self)
        ensures
            r@.text == text@,
            r@.kind == token_type,
    {
        Self { text, token_type }
    }

    pub fn get_type(&self) -> (r: TokenType)
        ensures
            r == self@.kind,
    {
        self.token_type
    }

    pub fn get_text(&self) -> (r: &String)
        ensures
            r@ == self@.text,
    {
        &self.text
    }
}

/// A tokenized line.
pub type Tokens = Vec<Token>;

#[verifier::external_type_specification]
#[verifier::external_body]
pub struct ExRegex(regex::Regex);

/// What scanning a line with the fixed token pattern yields: one entry per
/// raw match, with its capture class (0 two-character special, 1 one-character
/// special, 2 string literal, 3 comment, 4 symbol) and its text.  The matches
/// depend on the line alone.
pub uninterp spec fn lex_of(line: Seq<char>) -> Seq<(u8, Seq<char>)>;

/// The tokenizer: the compiled fixed token pattern.
pub struct Tokenizer {
    re: regex::Regex,
}

impl Tokenizer {
    /// Relies on regex::Regex::new: compiles the fixed token pattern, a
    /// constant expression that always compiles.
    #[verifier::external_body]
    pub fn new() -> (r: Self) {
        let re = regex::Regex::new(
            r#"(?x)
            [\s]* #skip white spaces
            (?P<special_two>~@)
            |
            (?P<special_one>[\[\]{}()'`~^@])
            |
            (?P<string>"(?:\\.|[^\\"])*"?)
            |
            (?P<comment>;.*)
            |
            (?P<symbol>[^\s\[\]{}('"`,;)]+)"#,
        );
        Self { re: re.unwrap() }
    }

    /// Relies on regex::Regex::captures_iter and regex::Captures::name over
    /// the fixed token pattern that `new` compiles (the only constructor of
    /// this type): each match sets exactly one named group, and the matches
    /// are a function of the line alone.
    #[verifier::external_body]
    fn scan(&self, line: &str) -> (r: Vec<(u8, String)>)
        ensures
            r@.len() == lex_of(line@).len(),
            forall|i: int|
                0 <= i < r@.len() ==> (#[trigger] r@[i]).0 == lex_of(line@)[i].0 && r@[i].1@
                    == lex_of(line@)[i].1,
    {
        let groups = ["special_two", "special_one", "string", "comment", "symbol"];
        let mut v = Vec::new();
        for cap in self.re.captures_iter(line) {
            for (k, g) in groups.iter().enumerate() {
                if let Some(m) = cap.name(g) {
                    v.push((k as u8, m.as_str().to_string()));
                }
            }
        }
        v
    }
}

/// One step of turning raw matches into tokens: either the tokens and
/// parenthesis counts so far, or an error message.
pub open spec fn spec_tokenize_walk(
    ms: Seq<(u8, Seq<char>)>,
    i: int,
    toks: Seq<SpecTok>,
    opens: int,
    closes: int,
) -> Result<Seq<SpecTok>, Seq<char>>
    decreases ms.len() - i,
{
    if i < 0 || i >= ms.len() {
        if closes > opens {
            Err("too few opening parentheses"@)
        } else if opens > closes {
            Err("too few closing parentheses"@)
        } else {
            Ok(toks)
        }
    } else {
        let kind = ms[i].0;
        let text = ms[i].1;
        let dopen: int = if text == "("@ {
            1
        } else {
            0
        };
        let dclose: int = if text == ")"@ {
            1
        } else {
            0
        };
        if kind == 0 {
            spec_tokenize_walk(
                ms,
                i + 1,
                toks.push(SpecTok { kind: TokenType::SpecialTwo, text }),
                opens + dopen,
                closes + dclose,
            )
        } else if kind == 1 {
            spec_tokenize_walk(
                ms,
                i + 1,
                toks.push(SpecTok { kind: TokenType::SpecialOne, text }),
                opens + dopen,
                closes + dclose,
            )
        } else if kind == 2 {
            if text.len() == 0 || text.last() != '"' {
                Err("unclosed string"@)
            } else {
                spec_tokenize_walk(
                    ms,
                    i + 1,
                    toks.push(SpecTok { kind: TokenType::Text, text }),
                    opens + dopen,
                    closes + dclose,
                )
            }
        } else if kind == 4 {
            spec_tokenize_walk(
                ms,
                i + 1,
                toks.push(SpecTok { kind: TokenType::Symbol, text }),
                opens + dopen,
                closes + dclose,
            )
        } else {
            // comments and unknown classes produce no token
            spec_tokenize_walk(ms, i + 1, toks, opens, closes)
        }
    }
}

/// What tokenizing raw matches yields: the tokens, or the first error.
pub open spec fn spec_tokenize(ms: Seq<(u8, Seq<char>)>) -> Result<Seq<SpecTok>, Seq<char>> {
    spec_tokenize_walk(ms, 0, Seq::empty(), 0, 0)
}

/// The parenthesis weight of one token, by its text.
pub open spec fn tok_delta(t: SpecTok) -> int {
    if t.text == "("@ {
        1
    } else if t.text == ")"@ {
        -1
    } else {
        0
    }
}

/// The summed parenthesis weight of the tokens in `[from, to)`.
pub open spec fn balance(ts: Seq<SpecTok>, from: int, to: int) -> int
    decreases to - from,
{
    if from >= to {
        0
    } else {
        tok_delta(ts[from]) + balance(ts, from + 1, to)
    }
}

/// Splitting a balance sum at any midpoint.
pub proof fn lemma_balance_split(ts: Seq<SpecTok>, a: int, b: int, c: int)
    requires
        a <= b <= c,
    ensures
        balance(ts, a, c) == balance(ts, a, b) + balance(ts, b, c),
    decreases b - a,
{
    if a < b {
        lemma_balance_split(ts, a + 1, b, c);
    }
}

/// Appending one token to a balanced prefix.
proof fn lemma_balance_push(ts: Seq<SpecTok>, t: SpecTok)
    ensures
        balance(ts.push(t), 0, ts.len() as int + 1) == balance(ts, 0, ts.len() as int) + tok_delta(t),
    decreases ts.len(),
{
    lemma_balance_split(ts.push(t), 0, ts.len() as int, ts.len() as int + 1);
    lemma_balance_prefix_same(ts.push(t), ts, 0, ts.len() as int);
    assert(ts.push(t)[ts.len() as int] == t);
    assert(balance(ts.push(t), ts.len() as int + 1, ts.len() as int + 1) == 0);
    assert(balance(ts.push(t), ts.len() as int, ts.len() as int + 1) == tok_delta(t));
}

/// Two sequences that agree on a range have the same balance there.
proof fn lemma_balance_prefix_same(ts1: Seq<SpecTok>, ts2: Seq<SpecTok>, from: int, to: int)
    requires
        0 <= from,
        to <= ts1.len(),
        to <= ts2.len(),
        forall|i: int| from <= i < to ==> ts1[i] == ts2[i],
    ensures
        balance(ts1, from, to) == balance(ts2, from, to),
    decreases to - from,
{
    if from < to {
        lemma_balance_prefix_same(ts1, ts2, from + 1, to);
    }
}

/// Tokens accepted by the walk carry exactly the running parenthesis counts.
proof fn lemma_tokenize_walk_balance(
    ms: Seq<(u8, Seq<char>)>,
    i: int,
    toks: Seq<SpecTok>,
    opens: int,
    closes: int,
)
    requires
        balance(toks, 0, toks.len() as int) == opens - closes,
    ensures
        match spec_tokenize_walk(ms, i, toks, opens, closes) {
            Ok(out) => balance(out, 0, out.len() as int) == 0,
            Err(_) => true,
        },
    decreases ms.len() - i,
{
    if 0 <= i < ms.len() {
        let kind = ms[i].0;
        let text = ms[i].1;
        let t2 = if kind == 0 {
            Some(SpecTok { kind: TokenType::SpecialTwo, text })
        } else if kind == 1 {
            Some(SpecTok { kind: TokenType::SpecialOne, text })
        } else if kind == 2 {
            Some(SpecTok { kind: TokenType::Text, text })
        } else if kind == 4 {
            Some(SpecTok { kind: TokenType::Symbol, text })
        } else {
            None
        };
        match t2 {
            Some(t) => {
                lemma_balance_push(toks, t);
                reveal_strlit("(");
                reveal_strlit(")");
                assert(("("@).len() == 1 && ("("@)[0] == '(');
                assert((")"@).len() == 1 && (")"@)[0] == ')');
                assert(("("@)[0] != (")"@)[0]);
                assert("("@ != ")"@);
                assert(t.text == text);
                assert(tok_delta(t) == (if text == "("@ { 1int } else { 0int }) - (
                if text == ")"@ {
                    1int
                } else {
                    0int
                }));
                let dopen: int = if text == "("@ {
                    1
                } else {
                    0
                };
                let dclose: int = if text == ")"@ {
                    1
                } else {
                    0
                };
                lemma_tokenize_walk_balance(
                    ms,
                    i + 1,
                    toks.push(t),
                    opens + dopen,
                    closes + dclose,
                );
            },
            None => {
                lemma_tokenize_walk_balance(ms, i + 1, toks, opens, closes);
            },
        }
    }
}

/// A token stream accepted by the tokenizer has balanced parentheses.
pub proof fn lemma_tokenize_balanced(ms: Seq<(u8, Seq<char>)>)
    ensures
        match spec_tokenize(ms) {
            Ok(out) => balance(out, 0, out.len() as int) == 0,
            Err(_) => true,
        },
{
    lemma_tokenize_walk_balance(ms, 0, Seq::empty(), 0, 0);
}

/// The views of a token vector.
pub open spec fn toks_view(v: Seq<Token>) -> Seq<SpecTok> {
    Seq::new(v.len(), |i: int| v[i]@)
}

impl Tokenizer {
    /// Split a line into classified tokens; reject a line with an unclosed
    /// string literal or with unbalanced parentheses.
    pub fn tokenize(&self, line: String) -> (r: Result<Tokens, crate::error::Error>)
        ensures
            match r {
                Ok(toks) => spec_tokenize(lex_of(line@)) == Ok::<Seq<SpecTok>, Seq<char>>(toks_view(toks@)),
                Err(e) => spec_tokenize(lex_of(line@)) == Err::<Seq<SpecTok>, _>(e@.message)
                    && e@.kind == crate::error::ErrorType::Syntax,
            },
    {
        let matches = self.scan(line.as_str());
        let ghost ms = lex_of(line@);
        let open_text = "(".to_owned();
        let close_text = ")".to_owned();
        let mut v: Vec<Token> = Vec::new();
        let mut opens: usize = 0;
        let mut closes: usize = 0;
        let mut i: usize = 0;
        proof {
            assert(toks_view(v@) =~= Seq::<SpecTok>::empty());
        }
        while i < matches.len()
            invariant
                ms == lex_of(line@),
                i <= matches@.len(),
                matches@.len() == ms.len(),
                open_text@ == "("@,
                close_text@ == ")"@,
                forall|j: int|
                    0 <= j < ms.len() ==> (#[trigger] matches@[j]).0 == ms[j].0 && matches@[j].1@
                        == ms[j].1,
                opens <= i,
                closes <= i,
                spec_tokenize(ms) == spec_tokenize_walk(
                    ms,
                    i as int,
                    toks_view(v@),
                    opens as int,
                    closes as int,
                ),
            decreases matches@.len() - i,
        {
            let (kind, text) = &matches[i];
            let k = *kind;
            let is_open = *text == open_text;
            let is_close = *text == close_text;
            let counted = k == 0 || k == 1 || k == 2 || k == 4;
            let ghost old_v = v@;
            if k == 0 {
                v.push(Token::new(text.clone(), TokenType::SpecialTwo));
            } else if k == 1 {
                v.push(Token::new(text.clone(), TokenType::SpecialOne));
            } else if k == 2 {
                let cs = crate::text::string_to_chars(text.as_str());
                if cs.len() == 0 || cs[cs.len() - 1] != '"' {
                    proof {
                        assert(ms[i as int].0 == 2 && ms[i as int].1 == cs@);
                        assert(ms[i as int].1.len() == 0 || ms[i as int].1.last() != '"');
                        assert(spec_tokenize_walk(
                            ms,
                            i as int,
                            toks_view(v@),
                            opens as int,
                            closes as int,
                        ) == Err::<Seq<SpecTok>, Seq<char>>("unclosed string"@));
                    }
                    return Err(crate::error::Error::new(
                        crate::error::ErrorType::Syntax,
                        "unclosed string",
                    ));
                }
                v.push(Token::new(text.clone(), TokenType::Text));
            } else if k == 4 {
                v.push(Token::new(text.clone(), TokenType::Symbol));
            }
            if counted && is_open {
                opens = opens + 1;
            }
            if counted && is_close {
                closes = closes + 1;
            }
            i = i + 1;
            proof {
                if k == 0 || k == 1 || k == 2 || k == 4 {
                    assert(toks_view(v@) =~= toks_view(old_v).push(v@.last()@));
                } else {
                    assert(toks_view(v@) =~= toks_view(old_v));
                }
            }
        }
        if closes > opens {
            Err(crate::error::Error::new(
                crate::error::ErrorType::Syntax,
                "too few opening parentheses",
            ))
        } else if opens > closes {
            Err(crate::error::Error::new(
                crate::error::ErrorType::Syntax,
                "too few closing parentheses",
            ))
        } else {
            Ok(v)
        }
    }
}

} // verus!
