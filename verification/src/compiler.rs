use vstd::prelude::*;

use crate::scanner::{lemma_scan_progress, spec_scan_at, ScanStep, Scanner, Token, TokenType};

verus! {

/// The full token stream of a source: one step per `scan_token` call,
/// ending with — and including — the end-of-input token.
pub open spec fn spec_token_seq(src: Seq<char>, pos: int) -> Seq<ScanStep>
    decreases src.len() - pos,
    when 0 <= pos <= src.len()
    via spec_token_seq_decreases
{
    let st = spec_scan_at(src, pos);
    if st.token_type == TokenType::Eof {
        seq![st]
    } else {
        seq![st] + spec_token_seq(src, st.next)
    }
}

#[via_fn]
proof fn spec_token_seq_decreases(src: Seq<char>, pos: int) {
    lemma_scan_progress(src, pos);
}

/// A produced token agrees with one step of the lexical rule.
pub open spec fn token_matches(t: Token, st: ScanStep) -> bool {
    &&& t.token_type == st.token_type
    &&& t.start == st.start
    &&& t.length == st.length
    &&& t.line == st.line
    &&& t.error_message == st.error_message
}

/// The stage between scanner and chunk. Code generation is future work:
/// today it drives the scanner over a whole source and hands the token
/// stream out for reporting.
pub struct Compiler {
    pub scanner: Scanner,
}

impl Compiler {
    pub fn new(scanner: Scanner) -> (r: Self)
        ensures
            r.scanner == scanner,
    {
        Self { scanner }
    }

    /// Scans the whole source into its token stream: exactly the steps of
    /// `spec_token_seq`, ending with the end-of-input token.
    pub fn compile(&mut self, source: String) -> (tokens: Vec<Token>)
        requires
            source@.len() < usize::MAX,
        ensures
            ({
                let ts = spec_token_seq(source@, 0);
                &&& tokens@.len() == ts.len()
                &&& (forall|i: int|
                    0 <= i < ts.len() ==> token_matches(#[trigger] tokens@[i], ts[i]))
                &&& tokens@.len() > 0
                &&& tokens@.last().token_type == TokenType::Eof
            }),
    {
        let ghost src = source@;
        let ghost total = spec_token_seq(src, 0);
        self.scanner.set_source(source);
        let mut tokens: Vec<Token> = Vec::new();
        loop
            invariant_except_break
                total.skip(tokens@.len() as int) =~= spec_token_seq(
                    src,
                    self.scanner.current as int,
                ),
            invariant
                self.scanner.wf(),
                self.scanner.source@ == src,
                total == spec_token_seq(src, 0),
                tokens@.len() <= total.len(),
                forall|i: int|
                    0 <= i < tokens@.len() ==> token_matches(#[trigger] tokens@[i], total[i]),
            ensures
                self.scanner.wf(),
                tokens@.len() == total.len(),
                tokens@.len() > 0,
                forall|i: int|
                    0 <= i < tokens@.len() ==> token_matches(#[trigger] tokens@[i], total[i]),
                tokens@.last().token_type == TokenType::Eof,
            decreases src.len() - self.scanner.current,
        {
            let ghost cur0 = self.scanner.current as int;
            let ghost n = tokens@.len() as int;
            proof {
                lemma_scan_progress(src, cur0);
            }
            let token = self.scanner.scan_token();
            tokens.push(token);
            proof {
                let st = spec_scan_at(src, cur0);
                let rest = spec_token_seq(src, cur0);
                assert(rest[0] == st);
                assert(total.skip(n) =~= rest);
                assert(rest.len() >= 1);
                assert(total.skip(n)[0] == rest[0]);
                assert(total.skip(n)[0] == total[n]);
                assert(total[n] == st);
                assert(tokens@[n] == token);
                assert(total.skip(n).drop_first() =~= total.skip(n + 1));
                if st.token_type != TokenType::Eof {
                    assert(rest.drop_first() =~= spec_token_seq(src, st.next));
                } else {
                    assert(rest.len() == 1);
                    assert(total.len() == n + 1);
                    assert(rest.drop_first() =~= Seq::<ScanStep>::empty());
                }
                assert(token_matches(tokens@[n], total[n]));
            }
            if token.token_type == TokenType::Eof {
                break ;
            }
        }
        tokens
    }
}

} // verus!
