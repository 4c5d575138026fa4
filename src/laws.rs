//! What holds of every scan.
use vstd::prelude::*;
use crate::diagnostic::Diagnostic;
use crate::lexical::{lemma_line_step, lemma_step_advances, lex_from, line_at, scan, step};
use crate::token::{token_views, Token, TokenType};

verus! {

/// No unit of the source yields an end-of-input token.
pub proof fn lemma_units_never_eof(src: Seq<char>, s: int)
    ensures
        forall|i: int|
            0 <= i < lex_from(src, s).tokens.len() ==> #[trigger] lex_from(src, s).tokens[i].kind
                != TokenType::Eof,
    decreases src.len() - s,
{
    if 0 <= s < src.len() {
        lemma_step_advances(src, s);
        lemma_units_never_eof(src, step(src, s).0);
    }
}

/// Whatever the input, the scan ends with an end-of-input token whose
/// lexeme is empty, and that token is the only one of its kind.
pub proof fn lemma_scan_ends_with_eof(src: Seq<char>)
    ensures
        scan(src).tokens.len() >= 1,
        scan(src).tokens.last().kind == TokenType::Eof,
        scan(src).tokens.last().lexeme.len() == 0,
        forall|i: int|
            0 <= i < scan(src).tokens.len() - 1 ==> #[trigger] scan(src).tokens[i].kind
                != TokenType::Eof,
{
    lemma_units_never_eof(src, 0);
    let body = lex_from(src, 0).tokens;
    assert forall|i: int| 0 <= i < scan(src).tokens.len() - 1 implies #[trigger] scan(
        src,
    ).tokens[i].kind != TokenType::Eof by {
        assert(scan(src).tokens[i] == body[i]);
    }
}

/// Scanning is deterministic: two scans of one source text, each by a fresh
/// scanner, give tokens with the same views and the same diagnostics.
pub proof fn lemma_rescan_identical(
    src: Seq<char>,
    first: Seq<Token>,
    first_reported: Seq<Diagnostic>,
    second: Seq<Token>,
    second_reported: Seq<Diagnostic>,
)
    requires
        token_views(first) == scan(src).tokens,
        first_reported == scan(src).diagnostics,
        token_views(second) == scan(src).tokens,
        second_reported == scan(src).diagnostics,
    ensures
        token_views(first) == token_views(second),
        first_reported == second_reported,
{
}

/// Lines never go back as the cursor moves forward.
pub proof fn lemma_line_monotone(src: Seq<char>, i: int, j: int)
    requires
        0 <= i <= j <= src.len(),
    ensures
        line_at(src, i) <= line_at(src, j),
    decreases j - i,
{
    if i < j {
        lemma_line_step(src, j - 1);
        lemma_line_monotone(src, i, j - 1);
    }
}

/// The tokens of the units from `s` on lie on lines from that of `s` to
/// that of the end of input, in non-decreasing order.
pub proof fn lemma_unit_lines_ordered(src: Seq<char>, s: int)
    requires
        0 <= s <= src.len(),
    ensures
        forall|k: int|
            0 <= k < lex_from(src, s).tokens.len() ==> line_at(src, s)
                <= #[trigger] lex_from(src, s).tokens[k].line <= line_at(src, src.len() as int),
        forall|k: int, m: int|
            0 <= k <= m < lex_from(src, s).tokens.len() ==> #[trigger] lex_from(src, s).tokens[k].line
                <= #[trigger] lex_from(src, s).tokens[m].line,
    decreases src.len() - s,
{
    if s < src.len() {
        lemma_step_advances(src, s);
        let e = step(src, s).0;
        lemma_unit_lines_ordered(src, e);
        lemma_line_monotone(src, s, e);
        lemma_line_monotone(src, e, src.len() as int);
        let rest = lex_from(src, e).tokens;
        let all = lex_from(src, s).tokens;
        if all.len() > rest.len() {
            assert forall|k: int| 0 < k < all.len() implies all[k] == rest[k - 1] by {}
        } else {
            assert(all == rest);
        }
    }
}

/// Token lines never decrease along the scan, and the end-of-input token
/// lies on the last line.
pub proof fn lemma_scan_lines_ordered(src: Seq<char>)
    ensures
        forall|k: int, m: int|
            0 <= k <= m < scan(src).tokens.len() ==> #[trigger] scan(src).tokens[k].line
                <= #[trigger] scan(src).tokens[m].line,
        scan(src).tokens.last().line == line_at(src, src.len() as int),
{
    lemma_unit_lines_ordered(src, 0);
    let body = lex_from(src, 0).tokens;
    let all = scan(src).tokens;
    assert forall|k: int, m: int| 0 <= k <= m < all.len() implies #[trigger] all[k].line
        <= #[trigger] all[m].line by {
        if m < body.len() {
            assert(all[k] == body[k] && all[m] == body[m]);
        } else if k < body.len() {
            assert(all[k] == body[k]);
        }
    }
}

} // verus!
