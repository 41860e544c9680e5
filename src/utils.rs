use vstd::prelude::*;

use crate::lexer::{lexemes, Lexer};
use crate::grammar::{lemma_program_text, p_program, vprogram_text, PState};
use crate::parser::parse;
use crate::token::{owned, token_display, Lexeme, Token};

verus! {

/// The listing forms of `toks`, separated by `", "`.
pub open spec fn listing(toks: Seq<Lexeme>) -> Seq<char>
    decreases toks.len(),
{
    if toks.len() == 0 {
        seq![]
    } else if toks.len() == 1 {
        token_display(toks[0])
    } else {
        listing(toks.drop_last()) + seq![',', ' '] + token_display(toks.last())
    }
}

/// The canonical text of the program parsed from `input`.
pub fn get_stringified_parser_output(input: &str) -> (r: String)
    ensures
        r@ == vprogram_text(
            p_program(lexemes(input@), PState { i: 0, errs: seq![] }, seq![]).0,
        ),
{
    let (program, _errors) = parse(input);
    proof {
        lemma_program_text(program);
    }
    program.to_string()
}

/// Every token of `input`, the end marker included, in listing form and
/// separated by `", "`.
pub fn get_stringified_lexer_output(input: &str) -> (r: String)
    ensures
        r@ == listing(lexemes(input@)),
{
    let s = owned(input);
    let mut lex = Lexer::new(&s);
    let tokens = lex.get_all_tokens();
    let ghost views = tokens@.map_values(|t: Token| t@);
    let mut out = String::new();
    let mut i: usize = 0;
    while i < tokens.len()
        invariant
            i <= tokens@.len(),
            views == tokens@.map_values(|t: Token| t@),
            out@ == listing(views.subrange(0, i as int)),
        decreases tokens.len() - i,
    {
        if i > 0 {
            out.append(", ");
        }
        let t = tokens[i].to_string();
        out.append(t.as_str());
        proof {
            reveal_strlit(", ");
            let pre = views.subrange(0, i + 1);
            assert(pre.drop_last() =~= views.subrange(0, i as int));
            assert(pre.last() == tokens@[i as int]@);
            assert(out@ =~= listing(pre));
        }
        i = i + 1;
    }
    assert(views.subrange(0, views.len() as int) =~= views);
    out
}

} // verus!
