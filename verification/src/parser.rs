//! The reader: a token stream cursor and the recursive-descent construction
//! of the value tree.
//!
//! The functional reading of a token stream is given by [`sp_form`] and
//! [`sp_items`]; the executable reader is proved to return exactly that
//! reading.  A stream whose parentheses balance to zero always has a
//! reading ([`lemma_form_total`]), which is what the tokenizer guarantees.
use vstd::prelude::*;

use crate::ast::{lemma_wf_vals, wf_val, wf_vals, LispValue, List, SpecVal, Unit};
use crate::tokenizer::{balance, lemma_balance_split, tok_delta, toks_view, SpecTok, Token, TokenType, Tokens};

verus! {

/// A cursor over a tokenized line.
#[derive(Debug)]
pub struct Parser {
    pub tokens: Tokens,
    pub pos: usize,
}

impl Parser {
    pub fn new(tokens: Tokens) -> (r: Self)
        ensures
            r.tokens@ == tokens@,
            r.pos == 0,
    {
        Self { tokens, pos: 0 }
    }

    /// The next token, without consuming it.
    pub fn peek(&self) -> (r: Option<&Token>)
        ensures
            match r {
                Some(t) => self.pos < self.tokens@.len() && t@ == toks_view(
                    self.tokens@,
                )[self.pos as int],
                None => self.pos >= self.tokens@.len(),
            },
    {
        if self.pos < self.tokens.len() {
            Some(&self.tokens[self.pos])
        } else {
            None
        }
    }

    /// The next token, consuming it.
    pub fn next(&mut self) -> (r: Option<Token>)
        ensures
            final(self).tokens@ == old(self).tokens@,
            match r {
                Some(t) => old(self).pos < old(self).tokens@.len() && t@ == toks_view(
                    old(self).tokens@,
                )[old(self).pos as int] && final(self).pos == old(self).pos + 1,
                None => old(self).pos >= old(self).tokens@.len() && final(self).pos == old(
                    self,
                ).pos,
            },
    {
        if self.pos < self.tokens.len() {
            let t = self.tokens[self.pos].duplicate();
            self.pos = self.pos + 1;
            Some(t)
        } else {
            None
        }
    }
}

/// The functional reading of one form at position `i`: the value read, if
/// any, and the position just past it.
pub open spec fn sp_form(ts: Seq<SpecTok>, i: int) -> (Option<SpecVal>, int)
    decreases ts.len() - i, 0int,
{
    if i < 0 || i >= ts.len() {
        (None, i)
    } else if ts[i].text == "("@ {
        let (items, j) = sp_items(ts, i + 1);
        match items {
            None => (None, j),
            Some(vs) => (Some(SpecVal::List(vs)), j),
        }
    } else {
        (Some(SpecVal::Unit(ts[i])), i + 1)
    }
}

/// The functional reading of list elements from position `j` up to the
/// closing parenthesis: the elements, if the list closes, and the position
/// just past the closing parenthesis.
pub open spec fn sp_items(ts: Seq<SpecTok>, j: int) -> (Option<Seq<SpecVal>>, int)
    decreases ts.len() - j, 1int,
{
    if j < 0 || j >= ts.len() {
        (None, j)
    } else if ts[j].text == ")"@ {
        (Some(Seq::empty()), j + 1)
    } else {
        let (ov, j2) = sp_form(ts, j);
        let jn: int = if j2 > j && j2 <= ts.len() {
            j2
        } else {
            j + 1
        };
        match ov {
            None => (None, jn),
            Some(v) => {
                let (orest, j3) = sp_items(ts, jn);
                match orest {
                    None => (None, j3),
                    Some(vs) => (Some(seq![v] + vs), j3),
                }
            },
        }
    }
}

/// Reading a form from inside the stream always advances the cursor.
pub proof fn lemma_form_advances(ts: Seq<SpecTok>, i: int)
    requires
        0 <= i,
    ensures
        i < ts.len() ==> i < sp_form(ts, i).1 <= ts.len(),
        i >= ts.len() ==> sp_form(ts, i) == (None::<SpecVal>, i),
    decreases ts.len() - i, 0int,
{
    if i < ts.len() && ts[i].text == "("@ {
        lemma_items_advance(ts, i + 1);
    }
}

pub proof fn lemma_items_advance(ts: Seq<SpecTok>, j: int)
    requires
        0 <= j,
    ensures
        j < ts.len() ==> j < sp_items(ts, j).1 <= ts.len(),
        j >= ts.len() ==> sp_items(ts, j) == (None::<Seq<SpecVal>>, j),
    decreases ts.len() - j, 1int,
{
    if j < ts.len() && ts[j].text != ")"@ {
        lemma_form_advances(ts, j);
        let (ov, j2) = sp_form(ts, j);
        let jn: int = if j2 > j && j2 <= ts.len() {
            j2
        } else {
            j + 1
        };
        if ov is Some {
            lemma_items_advance(ts, jn);
        }
    }
}

/// A form that does not open with a closing parenthesis, in a suffix whose
/// balance is not positive, reads successfully and consumes a balanced chunk.
pub proof fn lemma_form_total(ts: Seq<SpecTok>, i: int)
    requires
        0 <= i < ts.len(),
        ts[i].text != ")"@,
        balance(ts, i, ts.len() as int) <= 0,
    ensures
        ({
            let (ov, j) = sp_form(ts, i);
            ov is Some && i < j <= ts.len() && balance(ts, i, j) == 0
        }),
    decreases ts.len() - i, 0int,
{
    if ts[i].text == "("@ {
        lemma_items_total(ts, i + 1);
        let (items, j) = sp_items(ts, i + 1);
        assert(balance(ts, i + 1, i + 1) == 0);
        assert(balance(ts, i, i + 1) == tok_delta(ts[i]));
        lemma_balance_split(ts, i, i + 1, j);
    } else {
        assert(balance(ts, i + 1, i + 1) == 0);
        assert(balance(ts, i, i + 1) == tok_delta(ts[i]));
    }
}

/// List elements in a suffix whose balance is negative read successfully up
/// to a closing parenthesis, consuming a chunk of balance minus one.
pub proof fn lemma_items_total(ts: Seq<SpecTok>, j: int)
    requires
        0 <= j <= ts.len(),
        balance(ts, j, ts.len() as int) <= -1,
    ensures
        ({
            let (ov, j2) = sp_items(ts, j);
            ov is Some && j < j2 <= ts.len() && balance(ts, j, j2) == -1
        }),
    decreases ts.len() - j, 1int,
{
    reveal_strlit("(");
    reveal_strlit(")");
    assert(("("@)[0] == '(' && (")"@)[0] == ')');
    assert("("@ != ")"@);
    if j >= ts.len() {
        // the empty suffix has balance zero, contradicting the premise
        assert(balance(ts, j, ts.len() as int) == 0);
    } else if ts[j].text == ")"@ {
        assert(balance(ts, j + 1, j + 1) == 0);
        assert(balance(ts, j, j + 1) == -1);
    } else {
        lemma_form_advances(ts, j);
        lemma_form_total(ts, j);
        let (ov, j2) = sp_form(ts, j);
        lemma_balance_split(ts, j, j2, ts.len() as int);
        lemma_items_total(ts, j2);
        lemma_balance_split(ts, j, j2, sp_items(ts, j2).1);
    }
}

/// A non-empty stream whose parentheses balance to zero has a reading.
pub proof fn lemma_balanced_reads(ts: Seq<SpecTok>)
    requires
        ts.len() > 0,
        balance(ts, 0, ts.len() as int) == 0,
    ensures
        sp_form(ts, 0).0 is Some,
{
    reveal_strlit("(");
    reveal_strlit(")");
    assert(("("@)[0] == '(' && (")"@)[0] == ')');
    assert("("@ != ")"@);
    if ts[0].text != ")"@ {
        lemma_form_total(ts, 0);
    }
}

/// The value a whole line reads as: a syntax error from the tokenizer, an
/// error for a line with no form on it, or the first form.
pub open spec fn spec_read(text: Seq<char>) -> SpecVal {
    match crate::tokenizer::spec_tokenize(crate::tokenizer::lex_of(text)) {
        Err(msg) => SpecVal::Error(
            crate::error::error_text(crate::error::ErrorType::Syntax, msg),
        ),
        Ok(toks) => if toks.len() == 0 {
            SpecVal::Error("no input to read"@)
        } else {
            match sp_form(toks, 0).0 {
                Some(v) => v,
                None => SpecVal::Nil,
            }
        },
    }
}

/// Read one form and return the wrapped token.
pub fn read_atom(parser: &mut Parser) -> (r: Unit)
    requires
        old(parser).pos < old(parser).tokens@.len(),
    ensures
        final(parser).tokens@ == old(parser).tokens@,
        final(parser).pos == old(parser).pos + 1,
        r@ == toks_view(old(parser).tokens@)[old(parser).pos as int],
{
    match parser.next() {
        Some(t) => Unit::new(t),
        None => {
            proof {
                assert(false);
            }
            Unit::new(Token::new(String::new(), TokenType::Symbol))
        },
    }
}

/// Read one form: a parenthesised list, or a single token.
pub fn read_form(parser: &mut Parser) -> (r: LispValue)
    requires
        sp_form(toks_view(old(parser).tokens@), old(parser).pos as int).0 is Some,
    ensures
        final(parser).tokens@ == old(parser).tokens@,
        ({
            let (ov, j) = sp_form(toks_view(old(parser).tokens@), old(parser).pos as int);
            ov == Some(r@) && final(parser).pos == j
        }),
    decreases old(parser).tokens@.len() - old(parser).pos, 1int,
{
    let ghost ts = toks_view(old(parser).tokens@);
    proof {
        lemma_form_advances(ts, old(parser).pos as int);
    }
    let open_text = "(".to_owned();
    let is_list = match parser.peek() {
        Some(t) => *t.get_text() == open_text,
        None => {
            proof {
                assert(false);
            }
            false
        },
    };
    if is_list {
        LispValue::List(read_list(parser))
    } else {
        LispValue::Unit(read_atom(parser))
    }
}

/// Read the elements of a list, consuming the opening and closing
/// parentheses.
pub fn read_list(parser: &mut Parser) -> (r: List)
    requires
        old(parser).pos < old(parser).tokens@.len(),
        toks_view(old(parser).tokens@)[old(parser).pos as int].text == "("@,
        sp_items(toks_view(old(parser).tokens@), old(parser).pos + 1).0 is Some,
    ensures
        final(parser).tokens@ == old(parser).tokens@,
        ({
            let (ov, j) = sp_items(toks_view(old(parser).tokens@), old(parser).pos + 1);
            ov == Some(r@) && final(parser).pos == j
        }),
    decreases old(parser).tokens@.len() - old(parser).pos, 0int,
{
    let ghost ts = toks_view(old(parser).tokens@);
    let ghost istart = old(parser).pos as int + 1;
    parser.next();
    let close_text = ")".to_owned();
    let mut l = List::new();
    proof {
        assert(Seq::<SpecVal>::empty() + sp_items(ts, istart).0->0 =~= sp_items(ts, istart).0->0);
    }
    loop
        invariant
            parser.tokens@ == old(parser).tokens@,
            ts == toks_view(parser.tokens@),
            close_text@ == ")"@,
            istart == old(parser).pos + 1,
            istart <= parser.pos as int <= ts.len(),
            sp_items(ts, parser.pos as int).0 is Some,
            sp_items(ts, istart).0 == Some(l@ + sp_items(ts, parser.pos as int).0->0),
            sp_items(ts, istart).1 == sp_items(ts, parser.pos as int).1,
        decreases ts.len() - parser.pos,
    {
        let ghost cur = parser.pos as int;
        proof {
            lemma_items_advance(ts, cur);
        }
        let is_close = match parser.peek() {
            Some(t) => *t.get_text() == close_text,
            None => {
                proof {
                    assert(false);
                }
                false
            },
        };
        if is_close {
            parser.next();
            proof {
                assert(sp_items(ts, cur) == (Some(Seq::<SpecVal>::empty()), cur + 1));
                assert(l@ + Seq::<SpecVal>::empty() =~= l@);
                assert(sp_items(ts, istart).0 == Some(l@));
                assert(sp_items(ts, istart).1 == cur + 1);
            }
            return l;
        }
        proof {
            lemma_form_advances(ts, cur);
            assert(sp_form(ts, cur).0 is Some);
        }
        let ghost l_before = l@;
        proof {
            assert(ts.len() == parser.tokens@.len());
            assert(parser.tokens@.len() - parser.pos < old(parser).tokens@.len() - old(
                parser,
            ).pos);
        }
        let v = read_form(parser);
        l.push(v);
        proof {
            let (ov, j2) = sp_form(ts, cur);
            let rest = sp_items(ts, j2);
            assert(sp_items(ts, cur).0->0 =~= seq![v@] + rest.0->0);
            assert(l@ =~= l_before + seq![v@]);
            assert(l_before + (seq![v@] + rest.0->0) =~= l@ + rest.0->0);
        }
    }
}

/// Read the first form of the stream.
pub fn build_ast(parser: &mut Parser) -> (r: LispValue)
    requires
        sp_form(toks_view(old(parser).tokens@), old(parser).pos as int).0 is Some,
    ensures
        final(parser).tokens@ == old(parser).tokens@,
        ({
            let (ov, j) = sp_form(toks_view(old(parser).tokens@), old(parser).pos as int);
            ov == Some(r@) && final(parser).pos == j
        }),
{
    read_form(parser)
}

/// Tokenize a line and read its first form.  The line must hold at least
/// one form; `try_read_string` is the entry point for arbitrary lines.
pub fn read_string(tokenizer: &crate::tokenizer::Tokenizer, line: String) -> (r: LispValue)
    requires
        match crate::tokenizer::spec_tokenize(crate::tokenizer::lex_of(line@)) {
            Ok(t) => t.len() > 0,
            Err(_) => true,
        },
    ensures
        r@ == spec_read(line@),
{
    let ghost lexed = crate::tokenizer::lex_of(line@);
    match tokenizer.tokenize(line) {
        Err(e) => LispValue::Error(e.render()),
        Ok(tokens) => {
            proof {
                crate::tokenizer::lemma_tokenize_balanced(lexed);
                lemma_balanced_reads(toks_view(tokens@));
            }
            let mut parser = Parser::new(tokens);
            build_ast(&mut parser)
        },
    }
}

/// Tokenize a line and read its first form; a line with no form on it
/// (blank, or only a comment) yields nothing.
pub fn try_read_string(tokenizer: &crate::tokenizer::Tokenizer, line: String) -> (r: Option<
    LispValue,
>)
    ensures
        match r {
            Some(v) => v@ == spec_read(line@),
            None => crate::tokenizer::spec_tokenize(crate::tokenizer::lex_of(line@)) matches Ok(t)
                && t.len() == 0,
        },
{
    let ghost lexed = crate::tokenizer::lex_of(line@);
    match tokenizer.tokenize(line.clone()) {
        Err(e) => Some(LispValue::Error(e.render())),
        Ok(tokens) => {
            if tokens.len() == 0 {
                return None;
            }
            Some(read_string(tokenizer, line))
        },
    }
}

/// A value read from tokens holds no cell handles and no closures, so it is
/// well-formed for any store bounds.
pub proof fn lemma_sp_form_wf(ts: Seq<SpecTok>, i: int, ne: int, na: int)
    ensures
        match sp_form(ts, i).0 {
            Some(v) => wf_val(v, ne, na),
            None => true,
        },
    decreases ts.len() - i, 0int,
{
    if 0 <= i && i < ts.len() && ts[i].text == "("@ {
        lemma_sp_items_wf(ts, i + 1, ne, na);
    }
}

pub proof fn lemma_sp_items_wf(ts: Seq<SpecTok>, j: int, ne: int, na: int)
    ensures
        match sp_items(ts, j).0 {
            Some(vs) => wf_vals(vs, ne, na),
            None => true,
        },
    decreases ts.len() - j, 1int,
{
    if 0 <= j && j < ts.len() && ts[j].text != ")"@ {
        lemma_sp_form_wf(ts, j, ne, na);
        let (ov, j2) = sp_form(ts, j);
        let jn: int = if j2 > j && j2 <= ts.len() {
            j2
        } else {
            j + 1
        };
        match ov {
            Some(v) => {
                lemma_sp_items_wf(ts, jn, ne, na);
                match sp_items(ts, jn).0 {
                    Some(vs) => {
                        lemma_wf_vals(vs, ne, na);
                        lemma_wf_vals(seq![v] + vs, ne, na);
                    },
                    None => {},
                }
            },
            None => {},
        }
    }
}

/// Whatever a line reads as is well-formed for any store bounds.
pub proof fn lemma_spec_read_wf(text: Seq<char>, ne: int, na: int)
    ensures
        wf_val(spec_read(text), ne, na),
{
    match crate::tokenizer::spec_tokenize(crate::tokenizer::lex_of(text)) {
        Ok(toks) => {
            if toks.len() > 0 {
                lemma_sp_form_wf(toks, 0, ne, na);
            }
        },
        Err(_) => {},
    }
}

} // verus!
