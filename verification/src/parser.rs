//! The parser: recursive descent over the token stream, producing the
//! expression tree that converts one to one into runtime values.

use vstd::prelude::*;

pub mod ast;
pub mod lexer;
pub mod tokens;
pub mod util;

use crate::parser::ast::{Expr, ExprNode, ExprV};
use crate::parser::lexer::{FileLexer, LexerError, lexer_error_text};
use crate::parser::tokens::{Token, TokenV, SourceLocation, dummy_source, token_text};

verus! {

/// A parser error.
#[derive(Debug)]
pub enum ParserError {
    UnexpectedToken { found: Token, expected: Option<String>, location: SourceLocation },
    FromLexer(LexerError),
}

/// The report text of a parser error.
pub open spec fn parser_error_text(e: ParserError) -> Seq<char> {
    match e {
        ParserError::UnexpectedToken { found, expected, location } => match expected {
            Option::Some(what) => "expected "@ + what@ + ", found `"@ + token_text(found@)
                + "` at "@ + crate::parser::lexer::location_text(
                location.filename@,
                location.lineno as int,
            ),
            Option::None => "unexpected token: `"@ + token_text(found@) + "` at "@
                + crate::parser::lexer::location_text(
                location.filename@,
                location.lineno as int,
            ),
        },
        ParserError::FromLexer(err) => lexer_error_text(err@),
    }
}

impl ParserError {
    /// Wrap a tokenizer error.
    pub fn from_error(err: LexerError) -> (r: ParserError)
        ensures
            r == ParserError::FromLexer(err),
    {
        ParserError::FromLexer(err)
    }

    /// The report text of this error.
    pub fn to_text(&self) -> (r: String)
        ensures
            r@ == parser_error_text(*self),
    {
        match self {
            ParserError::UnexpectedToken { found, expected, location } => {
                let mut m = match expected {
                    Option::Some(what) => {
                        let mut m = "expected ".to_owned();
                        m.append(what.as_str());
                        m.append(", found `");
                        m
                    },
                    Option::None => "unexpected token: `".to_owned(),
                };
                m.append(found.to_text().as_str());
                m.append("` at ");
                m.append(location.filename.as_str());
                m.append(":");
                m.append(crate::util::usize_to_string(location.lineno).as_str());
                m
            },
            ParserError::FromLexer(err) => err.to_text(),
        }
    }
}

/// The model of the parser's token stream.
pub open spec fn view_located(s: Seq<(Token, SourceLocation)>) -> Seq<TokenV> {
    Seq::new(s.len(), |i: int| s[i].0@)
}

/// The expression one token position parses to, and the position after it:
/// a number, string or symbol token is one leaf; an opening bracket parses
/// children up to its closing partner.  `None` is a parse error.
pub open spec fn spec_parse_expr(ts: Seq<TokenV>, pos: int) -> Option<(ExprV, int)>
    decreases ts.len() - pos, 0int,
{
    if pos < 0 || pos >= ts.len() {
        Option::None
    } else {
        match ts[pos] {
            TokenV::Num(n) => Option::Some((ExprV::Num(n), pos + 1)),
            TokenV::Str(text) => Option::Some((ExprV::Str(text), pos + 1)),
            TokenV::Sym(name) => Option::Some((ExprV::Sym(name), pos + 1)),
            TokenV::LParen => match spec_parse_children(ts, pos + 1, true) {
                Option::Some((kids, p)) => Option::Some((ExprV::SExpr(kids), p)),
                Option::None => Option::None,
            },
            TokenV::LBrace => match spec_parse_children(ts, pos + 1, false) {
                Option::Some((kids, p)) => Option::Some((ExprV::QExpr(kids), p)),
                Option::None => Option::None,
            },
            _ => Option::None,
        }
    }
}

/// The children up to the closing bracket (`)` for `paren`, `}` otherwise),
/// in order, and the position after the closer.
pub open spec fn spec_parse_children(ts: Seq<TokenV>, pos: int, paren: bool) -> Option<
    (Seq<ExprV>, int),
>
    decreases ts.len() - pos, 1int,
{
    if pos < 0 || pos >= ts.len() {
        Option::None
    } else if (paren && ts[pos] is RParen) || (!paren && ts[pos] is RBrace) {
        Option::Some((Seq::empty(), pos + 1))
    } else {
        match spec_parse_expr(ts, pos) {
            Option::None => Option::None,
            Option::Some((e, p)) => if p <= pos || p > ts.len() {
                Option::None
            } else {
                match spec_parse_children(ts, p, paren) {
                    Option::Some((kids, p2)) => Option::Some((seq![e] + kids, p2)),
                    Option::None => Option::None,
                }
            },
        }
    }
}

/// Every top-level expression of the token stream from `pos` on, parsed in
/// order until the end of the input.
pub open spec fn spec_parse_all(ts: Seq<TokenV>, pos: int) -> Option<Seq<ExprV>>
    decreases ts.len() - pos, 2int,
{
    if pos < 0 {
        Option::None
    } else if pos >= ts.len() {
        Option::Some(Seq::empty())
    } else {
        match spec_parse_expr(ts, pos) {
            Option::None => Option::None,
            Option::Some((e, p)) => if p <= pos || p > ts.len() {
                Option::None
            } else {
                match spec_parse_all(ts, p) {
                    Option::Some(rest) => Option::Some(seq![e] + rest),
                    Option::None => Option::None,
                }
            },
        }
    }
}

/// One parsed unit: a single top-level expression stands by itself, anything
/// else is wrapped in one s-expression.
pub open spec fn spec_parse_wrap(es: Seq<ExprV>) -> ExprV {
    if es.len() == 1 {
        es[0]
    } else {
        ExprV::SExpr(es)
    }
}

/// The parser: a cursor over located tokens.
pub struct Parser {
    pub tokens: Vec<(Token, SourceLocation)>,
    pub pos: usize,
    pub location: SourceLocation,
}

impl Parser {
    /// The cursor is within bounds.
    pub open spec fn wf(&self) -> bool {
        self.pos <= self.tokens@.len()
    }

    /// The model of the token under the cursor; EOF past the end.
    pub open spec fn cur_token(&self) -> TokenV {
        if self.pos < self.tokens@.len() {
            self.tokens@[self.pos as int].0@
        } else {
            TokenV::Eof
        }
    }

    /// A parser over a source text, tokenized up front; the token stream is
    /// exactly `spec_tokenize` of the source.
    #[verifier::loop_isolation(false)]
    pub fn new(source: &str, file: &str) -> (r: Result<Parser, ParserError>)
        ensures
            match crate::parser::lexer::spec_tokenize(source@, 0, file@, 1) {
                Result::Ok(ts) => r matches Result::Ok(p) && p.wf() && p.pos == 0
                    && view_located(p.tokens@) == ts,
                Result::Err(e) => r matches Result::Err(err) && err matches
                    ParserError::FromLexer(le) && le@ == e,
            },
    {
        let mut lx = FileLexer::new(source, file);
        let ghost full = crate::parser::lexer::spec_tokenize(source@, 0, file@, 1);
        let mut tokens: Vec<(Token, SourceLocation)> = Vec::new();
        proof {
            assert(view_located(tokens@) =~= Seq::<TokenV>::empty());
            if full is Ok {
                assert(view_located(tokens@) + full->Ok_0 =~= full->Ok_0);
            }
        }
        loop
            invariant
                lx.wf(),
                lx.chars@ == source@,
                lx.file@ == file@,
                full == (match crate::parser::lexer::spec_tokenize(
                    lx.chars@,
                    lx.pos as int,
                    lx.file@,
                    lx.lineno as int,
                ) {
                    Result::Ok(rest) => Result::<Seq<TokenV>, crate::parser::lexer::LexErrV>::Ok(
                        view_located(tokens@) + rest,
                    ),
                    Result::Err(e) => Result::<
                        Seq<TokenV>,
                        crate::parser::lexer::LexErrV,
                    >::Err(e),
                }),
            decreases lx.chars@.len() - lx.pos,
        {
            if lx.is_eof() {
                break ;
            }
            let location = lx.get_source();
            let ghost tokens0 = tokens@;
            match lx.read_token() {
                Result::Ok(Option::Some(t)) => {
                    let ghost tv = t@;
                    tokens.push((t, location));
                    proof {
                        assert(view_located(tokens@) =~= view_located(tokens0).push(tv));
                        let suffix = crate::parser::lexer::spec_tokenize(
                            lx.chars@,
                            lx.pos as int,
                            lx.file@,
                            lx.lineno as int,
                        );
                        if suffix is Ok {
                            assert(view_located(tokens0) + (seq![tv] + suffix->Ok_0)
                                =~= view_located(tokens0).push(tv) + suffix->Ok_0);
                        }
                    }
                },
                Result::Ok(Option::None) => {
                },
                Result::Err(e) => {
                    return Result::Err(ParserError::FromLexer(e));
                },
            }
        }
        proof {
            assert(crate::parser::lexer::spec_tokenize(
                lx.chars@,
                lx.pos as int,
                lx.file@,
                lx.lineno as int,
            ) == Result::<Seq<TokenV>, crate::parser::lexer::LexErrV>::Ok(Seq::<TokenV>::empty()));
            assert(view_located(tokens@) + Seq::<TokenV>::empty() =~= view_located(tokens@));
        }
        Result::Ok(Parser { tokens, pos: 0, location: dummy_source() })
    }

    /// A parser over an already-built token stream; used when no source text
    /// exists.
    pub fn with_lexer(tokens: Vec<Token>) -> (r: Result<Parser, ParserError>)
        ensures
            r matches Result::Ok(p) ==> p.wf(),
    {
        let mut located: Vec<(Token, SourceLocation)> = Vec::new();
        let mut i: usize = 0;
        let n = tokens.len();
        let mut tokens = tokens;
        while i < n
            invariant
                i <= n,
                n + 0 == i + tokens@.len(),
            decreases n - i,
        {
            let t = tokens.remove(0);
            located.push((t, dummy_source()));
            i = i + 1;
        }
        Result::Ok(Parser { tokens: located, pos: 0, location: dummy_source() })
    }

    /// Move on to the next token.
    pub fn bump(&mut self)
        requires
            old(self).wf(),
            old(self).pos < old(self).tokens@.len(),
        ensures
            final(self).wf(),
            final(self).tokens == old(self).tokens,
            final(self).pos == old(self).pos + 1,
    {
        let n = self.tokens.len();
        self.pos = self.pos + 1;
    }

    /// Update the current source location to the cursor's.
    pub fn update_location(&mut self) -> (r: SourceLocation)
        requires
            old(self).wf(),
        ensures
            final(self).wf(),
            final(self).tokens == old(self).tokens,
            final(self).pos == old(self).pos,
    {
        if self.pos < self.tokens.len() {
            let loc = SourceLocation {
                filename: self.tokens[self.pos].1.filename.clone(),
                lineno: self.tokens[self.pos].1.lineno,
            };
            self.location = SourceLocation {
                filename: loc.filename.clone(),
                lineno: loc.lineno,
            };
            loc
        } else {
            let loc = SourceLocation {
                filename: self.location.filename.clone(),
                lineno: self.location.lineno,
            };
            loc
        }
    }

    /// Expect the cursor's token to be `tok` and continue, or fail.
    pub fn expect(&mut self, tok: &Token) -> (r: Result<(), ParserError>)
        requires
            old(self).wf(),
        ensures
            final(self).wf(),
            final(self).tokens == old(self).tokens,
            if old(self).cur_token() == tok@ && old(self).pos < old(self).tokens@.len() {
                r is Ok && final(self).pos == old(self).pos + 1
            } else {
                r is Err && final(self).pos == old(self).pos
            },
    {
        let matches_tok = if self.pos < self.tokens.len() {
            self.tokens[self.pos].0.eq(tok)
        } else {
            false
        };
        if matches_tok {
            self.bump();
            Result::Ok(())
        } else {
            let found = if self.pos < self.tokens.len() {
                self.tokens[self.pos].0.clone()
            } else {
                Token::EOF
            };
            let mut what = "`".to_owned();
            what.append(tok.to_text().as_str());
            what.append("`");
            let location = self.update_location();
            Result::Err(ParserError::UnexpectedToken { found, expected: Option::Some(what), location })
        }
    }

    /// Parse all the input: every top-level expression in order, wrapped in
    /// one s-expression unless there is exactly one — exactly
    /// `spec_parse_all` over `spec_tokenize` of the source.
    #[verifier::loop_isolation(false)]
    pub fn parse(source: &str, file: &str) -> (r: Result<ExprNode, ParserError>)
        ensures
            match crate::parser::lexer::spec_tokenize(source@, 0, file@, 1) {
                Result::Ok(ts) => match spec_parse_all(ts, 0) {
                    Option::Some(es) => r matches Result::Ok(node) && node@ == spec_parse_wrap(
                        es,
                    ),
                    Option::None => r is Err,
                },
                Result::Err(e) => r is Err,
            },
    {
        let mut parser = match Parser::new(source, file) {
            Result::Ok(p) => p,
            Result::Err(e) => {
                return Result::Err(e);
            },
        };
        let ghost vl = view_located(parser.tokens@);
        let ghost all = spec_parse_all(vl, 0);
        let location = parser.update_location();
        let mut values: Vec<ExprNode> = Vec::new();
        proof {
            match all {
                Option::Some(es) => {
                    assert(crate::parser::ast::view_nodes(values@) + es =~= es);
                },
                Option::None => {},
            }
        }
        loop
            invariant
                parser.wf(),
                vl == view_located(parser.tokens@),
                all == (match spec_parse_all(vl, parser.pos as int) {
                    Option::Some(rest) => Option::Some(
                        crate::parser::ast::view_nodes(values@) + rest,
                    ),
                    Option::None => Option::<Seq<ExprV>>::None,
                }),
            decreases parser.tokens@.len() - parser.pos,
        {
            let at_eof = parser.pos >= parser.tokens.len();
            if at_eof {
                break ;
            }
            match parser.parse_expr() {
                Result::Ok(node) => {
                    let ghost values0 = values@;
                    values.push(node);
                    proof {
                        assert(values@.drop_last() =~= values0);
                        assert(values@.last() == node);
                        assert(crate::parser::ast::view_nodes(values@)
                            == crate::parser::ast::view_nodes(values0).push(node@));
                        match spec_parse_all(vl, parser.pos as int) {
                            Option::Some(rest) => {
                                assert(crate::parser::ast::view_nodes(values0) + (seq![node@]
                                    + rest) =~= crate::parser::ast::view_nodes(values0).push(
                                    node@,
                                ) + rest);
                            },
                            Option::None => {},
                        }
                    }
                },
                Result::Err(e) => {
                    return Result::Err(e);
                },
            }
        }
        proof {
            match all {
                Option::Some(es) => {
                    assert(crate::parser::ast::view_nodes(values@) + Seq::<ExprV>::empty()
                        =~= crate::parser::ast::view_nodes(values@));
                },
                Option::None => {},
            }
        }
        if values.len() == 1 {
            let ghost values1 = values@;
            let node = match values.pop() {
                Option::Some(n) => n,
                Option::None => unreached(),
            };
            proof {
                match all {
                    Option::Some(es) => {
                        crate::parser::ast::lemma_view_nodes(values1);
                        assert(node == values1[0]);
                        assert(crate::parser::ast::view_nodes(values1)[0] == values1[0]@);
                    },
                    Option::None => {},
                }
            }
            Result::Ok(node)
        } else {
            proof {
                crate::parser::ast::lemma_view_nodes(values@);
            }
            Result::Ok(ExprNode::new(Expr::SExpr(values), location))
        }
    }

    /// Parse a number.
    pub fn parse_number(&mut self) -> (r: Result<ExprNode, ParserError>)
        requires
            old(self).wf(),
        ensures
            final(self).wf(),
            final(self).tokens == old(self).tokens,
            match r {
                Result::Ok(node) => old(self).cur_token() matches TokenV::Num(n) && node@
                    == ExprV::Num(n) && final(self).pos == old(self).pos + 1,
                Result::Err(_) => !(old(self).cur_token() is Num) && final(self).pos == old(
                    self,
                ).pos,
            },
    {
        let location = self.update_location();
        if self.pos < self.tokens.len() {
            let is_num = match &self.tokens[self.pos].0 {
                Token::NUMBER(_) => true,
                _ => false,
            };
            if is_num {
                let n = match &self.tokens[self.pos].0 {
                    Token::NUMBER(n) => *n,
                    _ => unreached(),
                };
                self.bump();
                return Result::Ok(ExprNode::new(Expr::Number(n), location));
            }
            let found = self.tokens[self.pos].0.clone();
            return Result::Err(
                ParserError::UnexpectedToken {
                    found,
                    expected: Option::Some("a number".to_owned()),
                    location,
                },
            );
        }
        Result::Err(
            ParserError::UnexpectedToken {
                found: Token::EOF,
                expected: Option::Some("a number".to_owned()),
                location,
            },
        )
    }

    /// Parse a string.
    pub fn parse_string(&mut self) -> (r: Result<ExprNode, ParserError>)
        requires
            old(self).wf(),
        ensures
            final(self).wf(),
            final(self).tokens == old(self).tokens,
            match r {
                Result::Ok(node) => old(self).cur_token() matches TokenV::Str(s) && node@
                    == ExprV::Str(s) && final(self).pos == old(self).pos + 1,
                Result::Err(_) => !(old(self).cur_token() is Str) && final(self).pos == old(
                    self,
                ).pos,
            },
    {
        let location = self.update_location();
        if self.pos < self.tokens.len() {
            let text = match &self.tokens[self.pos].0 {
                Token::STRING(s) => Option::Some(s.clone()),
                _ => Option::None,
            };
            match text {
                Option::Some(s) => {
                    self.bump();
                    return Result::Ok(ExprNode::new(Expr::Str(s), location));
                },
                Option::None => {
                    let found = self.tokens[self.pos].0.clone();
                    return Result::Err(
                        ParserError::UnexpectedToken {
                            found,
                            expected: Option::Some("a string".to_owned()),
                            location,
                        },
                    );
                },
            }
        }
        Result::Err(
            ParserError::UnexpectedToken {
                found: Token::EOF,
                expected: Option::Some("a string".to_owned()),
                location,
            },
        )
    }

    /// Parse a symbol.
    pub fn parse_symbol(&mut self) -> (r: Result<ExprNode, ParserError>)
        requires
            old(self).wf(),
        ensures
            final(self).wf(),
            final(self).tokens == old(self).tokens,
            match r {
                Result::Ok(node) => old(self).cur_token() matches TokenV::Sym(s) && node@
                    == ExprV::Sym(s) && final(self).pos == old(self).pos + 1,
                Result::Err(_) => !(old(self).cur_token() is Sym) && final(self).pos == old(
                    self,
                ).pos,
            },
    {
        let location = self.update_location();
        if self.pos < self.tokens.len() {
            let text = match &self.tokens[self.pos].0 {
                Token::SYMBOL(s) => Option::Some(s.clone()),
                _ => Option::None,
            };
            match text {
                Option::Some(s) => {
                    self.bump();
                    return Result::Ok(ExprNode::new(Expr::Symbol(s), location));
                },
                Option::None => {
                    let found = self.tokens[self.pos].0.clone();
                    return Result::Err(
                        ParserError::UnexpectedToken {
                            found,
                            expected: Option::Some("a symbol".to_owned()),
                            location,
                        },
                    );
                },
            }
        }
        Result::Err(
            ParserError::UnexpectedToken {
                found: Token::EOF,
                expected: Option::Some("a symbol".to_owned()),
                location,
            },
        )
    }

    /// Parse an s-expression: `(` expressions `)`; the children are the
    /// parses of the enclosed tokens, in order.
    #[verifier::loop_isolation(false)]
    #[verifier::rlimit(60)]
    pub fn parse_sexpr(&mut self) -> (r: Result<ExprNode, ParserError>)
        requires
            old(self).wf(),
            old(self).cur_token() is LParen,
        ensures
            final(self).wf(),
            final(self).tokens == old(self).tokens,
            final(self).pos >= old(self).pos,
            r matches Result::Ok(node) ==> node@ is SExpr && final(self).pos > old(self).pos,
            match spec_parse_expr(view_located(old(self).tokens@), old(self).pos as int) {
                Option::Some((e, p)) => r matches Result::Ok(node) && node@ == e
                    && final(self).pos == p,
                Option::None => r is Err,
            },
        decreases old(self).tokens@.len() - old(self).pos, 0int,
    {
        let ghost vl = view_located(self.tokens@);
        let ghost start = self.pos as int;
        proof {
            assert(vl[start] == self.tokens@[start].0@);
        }
        let location = self.update_location();
        match self.expect(&Token::LPAREN) {
            Result::Ok(_) => {
            },
            Result::Err(e) => {
                return Result::Err(e);
            },
        }
        let mut exprs: Vec<ExprNode> = Vec::new();
        proof {
            match spec_parse_children(vl, start + 1, true) {
                Option::Some((kids, p2)) => {
                    assert(crate::parser::ast::view_nodes(exprs@) + kids =~= kids);
                },
                Option::None => {},
            }
        }
        loop
            invariant
                self.wf(),
                self.tokens == old(self).tokens,
                self.pos > old(self).pos,
                spec_parse_children(vl, start + 1, true) == (match spec_parse_children(
                    vl,
                    self.pos as int,
                    true,
                ) {
                    Option::Some((kids, p2)) => Option::Some(
                        (crate::parser::ast::view_nodes(exprs@) + kids, p2),
                    ),
                    Option::None => Option::<(Seq<ExprV>, int)>::None,
                }),
            decreases self.tokens@.len() - self.pos,
        {
            let at_close = self.pos >= self.tokens.len() || {
                match &self.tokens[self.pos].0 {
                    Token::RPAREN => true,
                    _ => false,
                }
            };
            if at_close {
                break ;
            }
            proof {
                assert(vl[self.pos as int] == self.tokens@[self.pos as int].0@);
                assert(!(vl[self.pos as int] is RParen));
            }
            match self.parse_expr() {
                Result::Ok(node) => {
                    let ghost exprs0 = exprs@;
                    exprs.push(node);
                    proof {
                        assert(exprs@.drop_last() =~= exprs0);
                        assert(exprs@.last() == node);
                        assert(crate::parser::ast::view_nodes(exprs@)
                            == crate::parser::ast::view_nodes(exprs0).push(node@));
                        match spec_parse_children(vl, self.pos as int, true) {
                            Option::Some((kids, p2)) => {
                                assert(crate::parser::ast::view_nodes(exprs0) + (seq![node@]
                                    + kids) =~= crate::parser::ast::view_nodes(exprs0).push(
                                    node@,
                                ) + kids);
                            },
                            Option::None => {},
                        }
                    }
                },
                Result::Err(e) => {
                    return Result::Err(e);
                },
            }
        }
        proof {
            if self.pos < self.tokens@.len() {
                assert(vl[self.pos as int] == self.tokens@[self.pos as int].0@);
            }
            match spec_parse_children(vl, start + 1, true) {
                Option::Some((kids, p2)) => {
                    assert(crate::parser::ast::view_nodes(exprs@) + Seq::<ExprV>::empty()
                        =~= crate::parser::ast::view_nodes(exprs@));
                },
                Option::None => {},
            }
        }
        match self.expect(&Token::RPAREN) {
            Result::Ok(_) => Result::Ok(ExprNode::new(Expr::SExpr(exprs), location)),
            Result::Err(e) => Result::Err(e),
        }
    }

    /// Parse a q-expression: `{` expressions `}`; the children are the
    /// parses of the enclosed tokens, in order.
    #[verifier::loop_isolation(false)]
    #[verifier::rlimit(60)]
    pub fn parse_qexpr(&mut self) -> (r: Result<ExprNode, ParserError>)
        requires
            old(self).wf(),
            old(self).cur_token() is LBrace,
        ensures
            final(self).wf(),
            final(self).tokens == old(self).tokens,
            final(self).pos >= old(self).pos,
            r matches Result::Ok(node) ==> node@ is QExpr && final(self).pos > old(self).pos,
            match spec_parse_expr(view_located(old(self).tokens@), old(self).pos as int) {
                Option::Some((e, p)) => r matches Result::Ok(node) && node@ == e
                    && final(self).pos == p,
                Option::None => r is Err,
            },
        decreases old(self).tokens@.len() - old(self).pos, 0int,
    {
        let ghost vl = view_located(self.tokens@);
        let ghost start = self.pos as int;
        proof {
            assert(vl[start] == self.tokens@[start].0@);
        }
        let location = self.update_location();
        match self.expect(&Token::LBRACE) {
            Result::Ok(_) => {
            },
            Result::Err(e) => {
                return Result::Err(e);
            },
        }
        let mut exprs: Vec<ExprNode> = Vec::new();
        proof {
            match spec_parse_children(vl, start + 1, false) {
                Option::Some((kids, p2)) => {
                    assert(crate::parser::ast::view_nodes(exprs@) + kids =~= kids);
                },
                Option::None => {},
            }
        }
        loop
            invariant
                self.wf(),
                self.tokens == old(self).tokens,
                self.pos > old(self).pos,
                spec_parse_children(vl, start + 1, false) == (match spec_parse_children(
                    vl,
                    self.pos as int,
                    false,
                ) {
                    Option::Some((kids, p2)) => Option::Some(
                        (crate::parser::ast::view_nodes(exprs@) + kids, p2),
                    ),
                    Option::None => Option::<(Seq<ExprV>, int)>::None,
                }),
            decreases self.tokens@.len() - self.pos,
        {
            let at_close = self.pos >= self.tokens.len() || {
                match &self.tokens[self.pos].0 {
                    Token::RBRACE => true,
                    _ => false,
                }
            };
            if at_close {
                break ;
            }
            proof {
                assert(vl[self.pos as int] == self.tokens@[self.pos as int].0@);
                assert(!(vl[self.pos as int] is RBrace));
            }
            match self.parse_expr() {
                Result::Ok(node) => {
                    let ghost exprs0 = exprs@;
                    exprs.push(node);
                    proof {
                        assert(exprs@.drop_last() =~= exprs0);
                        assert(exprs@.last() == node);
                        assert(crate::parser::ast::view_nodes(exprs@)
                            == crate::parser::ast::view_nodes(exprs0).push(node@));
                        match spec_parse_children(vl, self.pos as int, false) {
                            Option::Some((kids, p2)) => {
                                assert(crate::parser::ast::view_nodes(exprs0) + (seq![node@]
                                    + kids) =~= crate::parser::ast::view_nodes(exprs0).push(
                                    node@,
                                ) + kids);
                            },
                            Option::None => {},
                        }
                    }
                },
                Result::Err(e) => {
                    return Result::Err(e);
                },
            }
        }
        proof {
            if self.pos < self.tokens@.len() {
                assert(vl[self.pos as int] == self.tokens@[self.pos as int].0@);
            }
            match spec_parse_children(vl, start + 1, false) {
                Option::Some((kids, p2)) => {
                    assert(crate::parser::ast::view_nodes(exprs@) + Seq::<ExprV>::empty()
                        =~= crate::parser::ast::view_nodes(exprs@));
                },
                Option::None => {},
            }
        }
        match self.expect(&Token::RBRACE) {
            Result::Ok(_) => Result::Ok(ExprNode::new(Expr::QExpr(exprs), location)),
            Result::Err(e) => Result::Err(e),
        }
    }

    /// Parse one expression, by the kind of the token under the cursor;
    /// see `spec_parse_expr`.
    pub fn parse_expr(&mut self) -> (r: Result<ExprNode, ParserError>)
        requires
            old(self).wf(),
        ensures
            final(self).wf(),
            final(self).tokens == old(self).tokens,
            final(self).pos >= old(self).pos,
            r is Ok ==> final(self).pos > old(self).pos,
            match spec_parse_expr(view_located(old(self).tokens@), old(self).pos as int) {
                Option::Some((e, p)) => r matches Result::Ok(node) && node@ == e
                    && final(self).pos == p,
                Option::None => r is Err,
            },
        decreases old(self).tokens@.len() - old(self).pos, 1int,
    {
        proof {
            if self.pos < self.tokens@.len() {
                assert(view_located(self.tokens@)[self.pos as int] == self.tokens@[
                self.pos as int].0@);
            }
        }
        if self.pos >= self.tokens.len() {
            let location = self.update_location();
            return Result::Err(
                ParserError::UnexpectedToken {
                    found: Token::EOF,
                    expected: Option::Some("an expression".to_owned()),
                    location,
                },
            );
        }
        let kind: u8 = match &self.tokens[self.pos].0 {
            Token::NUMBER(_) => 0,
            Token::STRING(_) => 1,
            Token::SYMBOL(_) => 2,
            Token::LPAREN => 3,
            Token::LBRACE => 4,
            _ => 5,
        };
        if kind == 0 {
            self.parse_number()
        } else if kind == 1 {
            self.parse_string()
        } else if kind == 2 {
            self.parse_symbol()
        } else if kind == 3 {
            self.parse_sexpr()
        } else if kind == 4 {
            self.parse_qexpr()
        } else {
            let found = self.tokens[self.pos].0.clone();
            let location = self.update_location();
            Result::Err(
                ParserError::UnexpectedToken {
                    found,
                    expected: Option::Some("an expression".to_owned()),
                    location,
                },
            )
        }
    }
}

} // verus!
