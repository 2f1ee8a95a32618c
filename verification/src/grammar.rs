//! The template grammar, stated over byte sequences.
//!
//! These specification functions say what the tokeniser recognises: plain
//! text, self-closing component tags `<Name a="v" />`, argument references
//! `$name`, and inline component definitions `{{Name ...\n body }}`. The
//! executable tokeniser is proved to return exactly what [`spec_next_token`]
//! says, so every contract above it can speak in terms of this one model.

use vstd::prelude::*;

verus! {

/// ASCII whitespace, as `u8::is_ascii_whitespace` has it.
pub open spec fn is_ws(b: u8) -> bool {
    b == 32 || b == 9 || b == 10 || b == 12 || b == 13
}

/// ASCII letter.
pub open spec fn is_alpha(b: u8) -> bool {
    (65 <= b && b <= 90) || (97 <= b && b <= 122)
}

/// ASCII uppercase letter.
pub open spec fn is_upper(b: u8) -> bool {
    65 <= b && b <= 90
}

/// ASCII letter or digit.
pub open spec fn is_alnum(b: u8) -> bool {
    is_alpha(b) || (48 <= b && b <= 57)
}

/// A component tag opens at `i`: `<` with one-byte lookahead at an
/// uppercase letter.
pub open spec fn is_tag_start(s: Seq<u8>, i: int) -> bool {
    0 <= i && i + 1 < s.len() && s[i] == 60 && is_upper(s[i + 1])
}

/// An argument reference opens at `i`: `$` followed by a letter.
pub open spec fn is_arg_start(s: Seq<u8>, i: int) -> bool {
    0 <= i && i + 1 < s.len() && s[i] == 36 && is_alpha(s[i + 1])
}

/// An inline component definition opens at `i`: `{{`.
pub open spec fn is_inline_start(s: Seq<u8>, i: int) -> bool {
    0 <= i && i + 1 < s.len() && s[i] == 123 && s[i + 1] == 123
}

/// Position `i` opens one of the three special constructs; anything else,
/// including the very last byte, belongs to plain text.
pub open spec fn is_special_at(s: Seq<u8>, i: int) -> bool {
    is_tag_start(s, i) || is_arg_start(s, i) || is_inline_start(s, i)
}

/// First position at or after `i` that is not a letter or digit.
pub open spec fn alnum_end(s: Seq<u8>, i: int) -> int
    decreases s.len() - i when 0 <= i <= s.len()
{
    if i >= s.len() || !is_alnum(s[i]) {
        i
    } else {
        alnum_end(s, i + 1)
    }
}

/// First position at or after `i` that is not ASCII whitespace.
pub open spec fn ws_end(s: Seq<u8>, i: int) -> int
    decreases s.len() - i when 0 <= i <= s.len()
{
    if i >= s.len() || !is_ws(s[i]) {
        i
    } else {
        ws_end(s, i + 1)
    }
}

/// First position at or after `i` holding byte `b`; the length when none.
pub open spec fn find_byte(s: Seq<u8>, i: int, b: u8) -> int
    decreases s.len() - i when 0 <= i <= s.len()
{
    if i >= s.len() || s[i] == b {
        i
    } else {
        find_byte(s, i + 1, b)
    }
}

/// First position `j` at or after `i` where `}` stands right after another
/// `}` (the close of an inline definition); the length when none.
pub open spec fn find_close(s: Seq<u8>, i: int) -> int
    decreases s.len() - i when 0 <= i <= s.len()
{
    if i >= s.len() || (i >= 1 && s[i] == 125 && s[i - 1] == 125) {
        i
    } else {
        find_close(s, i + 1)
    }
}

/// First position at or after `i` where a special construct opens; the
/// length when none. Plain text extends exactly this far.
pub open spec fn text_end(s: Seq<u8>, i: int) -> int
    decreases s.len() - i when 0 <= i <= s.len()
{
    if i >= s.len() || is_special_at(s, i) {
        i
    } else {
        text_end(s, i + 1)
    }
}

pub proof fn lemma_alnum_end_bounds(s: Seq<u8>, i: int)
    requires
        0 <= i <= s.len(),
    ensures
        i <= alnum_end(s, i) <= s.len(),
        forall|k: int| i <= k < alnum_end(s, i) ==> is_alnum(s[k]),
        alnum_end(s, i) < s.len() ==> !is_alnum(s[alnum_end(s, i)]),
    decreases s.len() - i,
{
    if i < s.len() && is_alnum(s[i]) {
        lemma_alnum_end_bounds(s, i + 1);
    }
}

pub proof fn lemma_ws_end_bounds(s: Seq<u8>, i: int)
    requires
        0 <= i <= s.len(),
    ensures
        i <= ws_end(s, i) <= s.len(),
        forall|k: int| i <= k < ws_end(s, i) ==> is_ws(s[k]),
        ws_end(s, i) < s.len() ==> !is_ws(s[ws_end(s, i)]),
    decreases s.len() - i,
{
    if i < s.len() && is_ws(s[i]) {
        lemma_ws_end_bounds(s, i + 1);
    }
}

pub proof fn lemma_find_byte_bounds(s: Seq<u8>, i: int, b: u8)
    requires
        0 <= i <= s.len(),
    ensures
        i <= find_byte(s, i, b) <= s.len(),
        forall|k: int| i <= k < find_byte(s, i, b) ==> s[k] != b,
        find_byte(s, i, b) < s.len() ==> s[find_byte(s, i, b)] == b,
    decreases s.len() - i,
{
    if i < s.len() && s[i] != b {
        lemma_find_byte_bounds(s, i + 1, b);
    }
}

pub proof fn lemma_find_close_bounds(s: Seq<u8>, i: int)
    requires
        0 <= i <= s.len(),
    ensures
        i <= find_close(s, i) <= s.len(),
        find_close(s, i) < s.len() ==> {
            &&& find_close(s, i) >= 1
            &&& s[find_close(s, i)] == 125
            &&& s[find_close(s, i) - 1] == 125
        },
    decreases s.len() - i,
{
    if i < s.len() && !(i >= 1 && s[i] == 125 && s[i - 1] == 125) {
        lemma_find_close_bounds(s, i + 1);
    }
}

pub proof fn lemma_text_end_bounds(s: Seq<u8>, i: int)
    requires
        0 <= i <= s.len(),
    ensures
        i <= text_end(s, i) <= s.len(),
        forall|k: int| i <= k < text_end(s, i) ==> !is_special_at(s, k),
        text_end(s, i) < s.len() ==> is_special_at(s, text_end(s, i)),
    decreases s.len() - i,
{
    if i < s.len() && !is_special_at(s, i) {
        lemma_text_end_bounds(s, i + 1);
    }
}

pub proof fn lemma_alnum_end_unique(s: Seq<u8>, i: int, j: int)
    requires
        0 <= i <= j <= s.len(),
        forall|k: int| i <= k < j ==> is_alnum(s[k]),
        j < s.len() ==> !is_alnum(s[j]),
    ensures
        alnum_end(s, i) == j,
    decreases j - i,
{
    if i < j {
        lemma_alnum_end_unique(s, i + 1, j);
    }
}

pub proof fn lemma_ws_end_unique(s: Seq<u8>, i: int, j: int)
    requires
        0 <= i <= j <= s.len(),
        forall|k: int| i <= k < j ==> is_ws(s[k]),
        j < s.len() ==> !is_ws(s[j]),
    ensures
        ws_end(s, i) == j,
    decreases j - i,
{
    if i < j {
        lemma_ws_end_unique(s, i + 1, j);
    }
}

pub proof fn lemma_find_byte_unique(s: Seq<u8>, i: int, j: int, b: u8)
    requires
        0 <= i <= j <= s.len(),
        forall|k: int| i <= k < j ==> s[k] != b,
        j < s.len() ==> s[j] == b,
    ensures
        find_byte(s, i, b) == j,
    decreases j - i,
{
    if i < j {
        lemma_find_byte_unique(s, i + 1, j, b);
    }
}

pub proof fn lemma_find_close_unique(s: Seq<u8>, i: int, j: int)
    requires
        0 <= i <= j <= s.len(),
        forall|k: int| i <= k < j ==> !(k >= 1 && #[trigger] s[k] == 125 && s[k - 1] == 125),
        j < s.len() ==> (j >= 1 && s[j] == 125 && s[j - 1] == 125),
    ensures
        find_close(s, i) == j,
    decreases j - i,
{
    if i < j {
        lemma_find_close_unique(s, i + 1, j);
    }
}

pub proof fn lemma_text_end_unique(s: Seq<u8>, i: int, j: int)
    requires
        0 <= i <= j <= s.len(),
        forall|k: int| i <= k < j ==> !is_special_at(s, k),
        j < s.len() ==> is_special_at(s, j),
    ensures
        text_end(s, i) == j,
    decreases j - i,
{
    if i < j {
        lemma_text_end_unique(s, i + 1, j);
    }
}

pub proof fn lemma_rtrim_end_unique(s: Seq<u8>, i: int, j: int)
    requires
        0 <= j <= i <= s.len(),
        forall|k: int| j <= k < i ==> is_ws(s[k]),
        j > 0 ==> !is_ws(s[j - 1]),
    ensures
        rtrim_end(s, i) == j,
    decreases i - j,
{
    if j < i {
        lemma_rtrim_end_unique(s, i - 1, j);
    }
}

/// Strip leading and trailing ASCII whitespace; an all-whitespace input
/// yields the empty sequence.
pub open spec fn trim_of(s: Seq<u8>) -> Seq<u8> {
    let a = ws_end(s, 0);
    let b = rtrim_end(s, s.len() as int);
    if b <= a {
        Seq::empty()
    } else {
        s.subrange(a, b)
    }
}

/// End of the prefix of length `i` once trailing ASCII whitespace is
/// stripped from it.
pub open spec fn rtrim_end(s: Seq<u8>, i: int) -> int
    decreases i when 0 <= i <= s.len()
{
    if i <= 0 || !is_ws(s[i - 1]) {
        i
    } else {
        rtrim_end(s, i - 1)
    }
}

/// A document is plain when no position opens a tag, an argument reference
/// or an inline definition: it is one single text token.
pub open spec fn is_plain(s: Seq<u8>) -> bool {
    forall|i: int| 0 <= i < s.len() ==> !is_special_at(s, i)
}

pub proof fn lemma_plain_text_end(s: Seq<u8>, i: int)
    requires
        0 <= i <= s.len(),
        is_plain(s),
    ensures
        text_end(s, i) == s.len(),
    decreases s.len() - i,
{
    if i < s.len() {
        lemma_plain_text_end(s, i + 1);
    }
}

/// Whether a byte is an ASCII letter, matching [`is_alpha`].
pub fn is_alpha_byte(b: u8) -> (r: bool)
    ensures
        r == is_alpha(b),
{
    (65 <= b && b <= 90) || (97 <= b && b <= 122)
}

/// Whether a byte is an ASCII uppercase letter, matching [`is_upper`].
pub fn is_upper_byte(b: u8) -> (r: bool)
    ensures
        r == is_upper(b),
{
    65 <= b && b <= 90
}

/// Whether a byte is an ASCII letter or digit, matching [`is_alnum`].
pub fn is_alnum_byte(b: u8) -> (r: bool)
    ensures
        r == is_alnum(b),
{
    is_alpha_byte(b) || (48 <= b && b <= 57)
}

/// One token of the grammar, carried as plain byte sequences.
pub enum SToken {
    /// A run of plain text, to be copied to the output verbatim.
    SText { bytes: Seq<u8> },
    /// A self-closing component tag with its attribute pairs in order.
    STag { name: Seq<u8>, args: Seq<(Seq<u8>, Seq<u8>)> },
    /// An argument reference `$name`.
    SArg { name: Seq<u8> },
    /// An inline component definition; the body is already trimmed.
    SInline { name: Seq<u8>, body: Seq<u8> },
}

/// What scanning at a position yields.
pub enum STokenResult {
    /// A token, and the position right after it.
    STok { tok: SToken, end: int },
    /// A malformed tag or inline block.
    SSyntaxErr,
    /// The input is exhausted.
    SEnd,
}

/// What parsing the attribute list of a tag yields.
pub enum SArgsResult {
    /// The pairs read, and the position where the list stopped.
    SArgsOk { args: Seq<(Seq<u8>, Seq<u8>)>, end: int },
    /// A malformed attribute.
    SArgsFail,
}

/// Parse `name="value"` pairs separated by whitespace, starting at `i`,
/// until the next non-whitespace byte is not a letter (or the input ends).
/// Values are raw bytes up to the next `"`, with no escaping.
pub open spec fn spec_parse_args(s: Seq<u8>, i: int, acc: Seq<(Seq<u8>, Seq<u8>)>) -> SArgsResult
    decreases s.len() - i when 0 <= i <= s.len()
{
    let j = ws_end(s, i);
    if j >= s.len() || !is_alpha(s[j]) {
        SArgsResult::SArgsOk { args: acc, end: j }
    } else {
        let ne = alnum_end(s, j);
        let k = ws_end(s, ne);
        if k >= s.len() || s[k] != 61 {
            SArgsResult::SArgsFail
        } else {
            let m = ws_end(s, k + 1);
            if m >= s.len() || s[m] != 34 {
                SArgsResult::SArgsFail
            } else {
                let ve = find_byte(s, m + 1, 34);
                if ve >= s.len() {
                    SArgsResult::SArgsFail
                } else {
                    proof {
                        lemma_ws_end_bounds(s, i);
                        lemma_alnum_end_bounds(s, j);
                        lemma_ws_end_bounds(s, ne);
                        lemma_ws_end_bounds(s, k + 1);
                        lemma_find_byte_bounds(s, m + 1, 34);
                    }
                    spec_parse_args(
                        s,
                        ve + 1,
                        acc.push((s.subrange(j, ne), s.subrange(m + 1, ve))),
                    )
                }
            }
        }
    }
}

pub proof fn lemma_parse_args_bounds(s: Seq<u8>, i: int, acc: Seq<(Seq<u8>, Seq<u8>)>)
    requires
        0 <= i <= s.len(),
    ensures
        match spec_parse_args(s, i, acc) {
            SArgsResult::SArgsOk { args, end } => i <= end <= s.len(),
            SArgsResult::SArgsFail => true,
        },
    decreases s.len() - i,
{
    let j = ws_end(s, i);
    lemma_ws_end_bounds(s, i);
    if !(j >= s.len() || !is_alpha(s[j])) {
        let ne = alnum_end(s, j);
        lemma_alnum_end_bounds(s, j);
        let k = ws_end(s, ne);
        lemma_ws_end_bounds(s, ne);
        if !(k >= s.len() || s[k] != 61) {
            let m = ws_end(s, k + 1);
            lemma_ws_end_bounds(s, k + 1);
            if !(m >= s.len() || s[m] != 34) {
                let ve = find_byte(s, m + 1, 34);
                lemma_find_byte_bounds(s, m + 1, 34);
                if !(ve >= s.len()) {
                    lemma_parse_args_bounds(
                        s,
                        ve + 1,
                        acc.push((s.subrange(j, ne), s.subrange(m + 1, ve))),
                    );
                }
            }
        }
    }
}

/// The token that opens at position `i` of `s`, or a syntax error, or the
/// end of the input. This is the whole lexical rule of the language.
pub open spec fn spec_next_token(s: Seq<u8>, i: int) -> STokenResult {
    if i < 0 || i >= s.len() {
        STokenResult::SEnd
    } else if is_tag_start(s, i) {
        let ne = alnum_end(s, i + 1);
        match spec_parse_args(s, ne, Seq::empty()) {
            SArgsResult::SArgsFail => STokenResult::SSyntaxErr,
            SArgsResult::SArgsOk { args, end: p } => {
                if p < s.len() && s[p] == 47 && p + 1 < s.len() && s[p + 1] == 62 {
                    STokenResult::STok {
                        tok: SToken::STag { name: s.subrange(i + 1, ne), args },
                        end: p + 2,
                    }
                } else {
                    STokenResult::SSyntaxErr
                }
            },
        }
    } else if is_arg_start(s, i) {
        let ne = alnum_end(s, i + 1);
        STokenResult::STok { tok: SToken::SArg { name: s.subrange(i + 1, ne) }, end: ne }
    } else if is_inline_start(s, i) {
        let ne = alnum_end(s, i + 2);
        let nl = find_byte(s, ne, 10);
        if nl >= s.len() {
            STokenResult::SSyntaxErr
        } else {
            let c = find_close(s, nl + 1);
            if c >= s.len() {
                STokenResult::SSyntaxErr
            } else {
                STokenResult::STok {
                    tok: SToken::SInline {
                        name: s.subrange(i + 2, ne),
                        body: trim_of(s.subrange(nl + 1, c - 1)),
                    },
                    end: c + 1,
                }
            }
        }
    } else {
        STokenResult::STok { tok: SToken::SText { bytes: s.subrange(i, text_end(s, i)) }, end: text_end(s, i) }
    }
}

/// Every token occupies at least one byte: scanning from a valid position
/// always strictly advances and never passes the end.
pub proof fn lemma_next_token_advances(s: Seq<u8>, i: int)
    requires
        0 <= i <= s.len(),
    ensures
        match spec_next_token(s, i) {
            STokenResult::STok { tok, end } => i < end <= s.len(),
            _ => true,
        },
{
    if i < s.len() {
        if is_tag_start(s, i) {
            lemma_alnum_end_bounds(s, i + 1);
            let ne = alnum_end(s, i + 1);
            lemma_parse_args_bounds(s, ne, Seq::empty());
        } else if is_arg_start(s, i) {
            lemma_alnum_end_bounds(s, i + 1);
        } else if is_inline_start(s, i) {
            lemma_alnum_end_bounds(s, i + 2);
            let ne = alnum_end(s, i + 2);
            lemma_find_byte_bounds(s, ne, 10);
            let nl = find_byte(s, ne, 10);
            if nl < s.len() {
                lemma_find_close_bounds(s, nl + 1);
            }
        } else {
            lemma_text_end_bounds(s, i);
        }
    }
}

} // verus!
