//! The tokenizer: Butter source text to a list of token strings.
//!
//! Identifiers and numbers become tokens of their own text; each punctuation
//! character becomes its name (`;` is `SEMI`, `->` is `LET`, ...); a string
//! literal becomes one token with its quotes kept and `%` and `\` escaped for
//! NASM; a `[ ... ]` list becomes one token without its opening bracket; `~`
//! starts a comment that runs to the end of the line.
use vstd::prelude::*;
use crate::chars::{is_alphabetic, is_alphanumeric, is_numeric, unicode_alphabetic, unicode_numeric};
use crate::text::{chars_of, lit, same, string_of, sub_chars, views};

verus! {

/// Why the tokenizer refuses a source text.
#[derive(Debug, Clone, Copy, PartialEq, Eq, Structural)]
pub enum TokenizeError {
    /// The text holds nothing but spaces and newlines.
    EmptyFile,
    /// A line ends without `;`, `{` or `}` as the last token before it.
    ExpectedSemicolon,
    /// A string literal has no closing `"`.
    UnterminatedString,
    /// A list has no closing `]`.
    UnterminatedList,
    /// A list holds a space; the scan of the list never advances past it.
    SpaceInList,
    /// A line ends before any token was read; there is no previous token to check.
    NewlineBeforeFirstToken,
}

/// The name of a one-character token, if the character is one.
pub open spec fn pool_token(c: char) -> Option<Seq<char>> {
    if c == ';' {
        Some("SEMI"@)
    } else if c == '+' {
        Some("PLUS"@)
    } else if c == '=' {
        Some("EQ"@)
    } else if c == '-' {
        Some("MIN"@)
    } else if c == '>' {
        Some("GT"@)
    } else if c == '*' {
        Some("TIMES"@)
    } else if c == '/' {
        Some("DIV"@)
    } else if c == '{' {
        Some("CURLO"@)
    } else if c == '}' {
        Some("CURLC"@)
    } else if c == '(' {
        Some("PARO"@)
    } else if c == ')' {
        Some("PARC"@)
    } else if c == ',' {
        Some("COMMA"@)
    } else if c == ':' {
        Some("COL"@)
    } else if c == '&' {
        Some("AMP"@)
    } else {
        None
    }
}

/// How a character inside a string literal is written out: `%` becomes `\`
/// (NASM's escape character) and `\` is doubled.
pub open spec fn escape(c: char) -> Seq<char> {
    if c == '%' {
        seq!['\\']
    } else if c == '\\' {
        seq!['\\', '\\']
    } else {
        seq![c]
    }
}

/// The rest of a string literal from position `i`, appended to `buf`, up to and
/// including the closing quote; with the position after it.
pub open spec fn scan_string(chars: Seq<char>, i: int, buf: Seq<char>) -> Result<
    (Seq<char>, int),
    TokenizeError,
>
    decreases chars.len() - i,
{
    if i < 0 || i >= chars.len() {
        Err(TokenizeError::UnterminatedString)
    } else if chars[i] == '"' {
        Ok((buf.push('"'), i + 1))
    } else {
        scan_string(chars, i + 1, buf + escape(chars[i]))
    }
}

/// The rest of a list from position `i`, appended to `buf`, up to and including
/// the closing bracket; with the position after it. A quote inside a list is
/// handed to the string scan at the quote itself, which closes at once: the
/// buffer then becomes `b + b + "` where `b` is the buffer with the quote added.
pub open spec fn scan_list(chars: Seq<char>, i: int, buf: Seq<char>) -> Result<
    (Seq<char>, int),
    TokenizeError,
>
    decreases chars.len() - i,
{
    if i < 0 || i >= chars.len() {
        Err(TokenizeError::UnterminatedList)
    } else if chars[i] == ']' {
        Ok((buf.push(']'), i + 1))
    } else if chars[i] == ' ' {
        Err(TokenizeError::SpaceInList)
    } else if chars[i] == '"' {
        let b = buf.push('"');
        scan_list(chars, i + 1, b + b.push('"'))
    } else {
        scan_list(chars, i + 1, buf.push(chars[i]))
    }
}

/// The first position at or after `j` that does not continue an identifier.
pub open spec fn ident_end(chars: Seq<char>, j: int) -> int
    decreases chars.len() - j,
{
    if j < 0 || j >= chars.len() {
        j
    } else if unicode_alphabetic(chars[j]) || unicode_numeric(chars[j]) || chars[j] == '_' {
        ident_end(chars, j + 1)
    } else {
        j
    }
}

/// The first position at or after `j` that does not continue a number.
pub open spec fn number_end(chars: Seq<char>, j: int) -> int
    decreases chars.len() - j,
{
    if j < 0 || j >= chars.len() {
        j
    } else if unicode_numeric(chars[j]) {
        number_end(chars, j + 1)
    } else {
        j
    }
}

/// Whether a newline may follow the given tokens.
pub open spec fn line_may_end(toks: Seq<Seq<char>>) -> bool {
    toks.last() == "SEMI"@ || toks.last() == "CURLO"@ || toks.last() == "CURLC"@
}

/// An identifier ends at or after where it is scanned from, within the text.
pub proof fn lemma_ident_end(chars: Seq<char>, j: int)
    requires
        0 <= j <= chars.len(),
    ensures
        j <= ident_end(chars, j) <= chars.len(),
    decreases chars.len() - j,
{
    if j < chars.len() {
        lemma_ident_end(chars, j + 1);
    }
}

/// A number ends at or after where it is scanned from, within the text.
pub proof fn lemma_number_end(chars: Seq<char>, j: int)
    requires
        0 <= j <= chars.len(),
    ensures
        j <= number_end(chars, j) <= chars.len(),
    decreases chars.len() - j,
{
    if j < chars.len() {
        lemma_number_end(chars, j + 1);
    }
}

/// A string scan that succeeds moves past its start, within the text.
pub proof fn lemma_scan_string(chars: Seq<char>, i: int, buf: Seq<char>)
    requires
        0 <= i,
    ensures
        scan_string(chars, i, buf) matches Ok((t, j)) ==> i < j <= chars.len(),
    decreases chars.len() - i,
{
    if i < chars.len() && chars[i] != '"' {
        lemma_scan_string(chars, i + 1, buf + escape(chars[i]));
    }
}

/// A list scan that succeeds moves past its start, within the text.
pub proof fn lemma_scan_list(chars: Seq<char>, i: int, buf: Seq<char>)
    requires
        0 <= i,
    ensures
        scan_list(chars, i, buf) matches Ok((t, j)) ==> i < j <= chars.len(),
    decreases chars.len() - i,
{
    if i < chars.len() && chars[i] != ']' && chars[i] != ' ' {
        if chars[i] == '"' {
            let b = buf.push('"');
            lemma_scan_list(chars, i + 1, b + b.push('"'));
        } else {
            lemma_scan_list(chars, i + 1, buf.push(chars[i]));
        }
    }
}

/// The tokenizer's state machine from position `i`, with flags for being inside
/// a string, inside a list and inside a comment, and the tokens read so far.
pub open spec fn run(
    chars: Seq<char>,
    i: int,
    in_string: bool,
    in_list: bool,
    in_comment: bool,
    toks: Seq<Seq<char>>,
) -> Result<Seq<Seq<char>>, TokenizeError>
    decreases chars.len() - i,
{
    if i < 0 || i >= chars.len() {
        Ok(toks)
    } else {
        let c = chars[i];
        if in_comment {
            run(chars, i + 1, in_string, in_list, c != '\n', toks)
        } else if c == '~' {
            run(chars, i + 1, in_string, in_list, true, toks)
        } else if in_string {
            proof {
                lemma_scan_string(chars, i, seq!['"']);
            }
            match scan_string(chars, i, seq!['"']) {
                Ok((t, j)) => run(chars, j, false, in_list, false, toks.push(t)),
                Err(e) => Err(e),
            }
        } else if c == '"' {
            run(chars, i + 1, true, in_list, false, toks)
        } else if in_list {
            proof {
                lemma_scan_list(chars, i, Seq::empty());
            }
            match scan_list(chars, i, Seq::empty()) {
                Ok((t, j)) => run(chars, j, false, false, false, toks.push(t)),
                Err(e) => Err(e),
            }
        } else if c == '[' {
            run(chars, i + 1, false, true, false, toks)
        } else if unicode_alphabetic(c) {
            proof {
                lemma_ident_end(chars, i + 1);
            }
            let e = ident_end(chars, i + 1);
            run(chars, e, false, false, false, toks.push(chars.subrange(i, e)))
        } else if unicode_numeric(c) {
            proof {
                lemma_number_end(chars, i + 1);
            }
            let e = number_end(chars, i + 1);
            run(chars, e, false, false, false, toks.push(chars.subrange(i, e)))
        } else if pool_token(c) is Some {
            if c == '-' && i + 1 < chars.len() && chars[i + 1] == '>' {
                run(chars, i + 2, false, false, false, toks.push("LET"@))
            } else {
                run(chars, i + 1, false, false, false, toks.push(pool_token(c).unwrap()))
            }
        } else if c == '\n' {
            if toks.len() == 0 {
                Err(TokenizeError::NewlineBeforeFirstToken)
            } else if line_may_end(toks) {
                run(chars, i + 1, false, false, false, toks)
            } else {
                Err(TokenizeError::ExpectedSemicolon)
            }
        } else {
            run(chars, i + 1, false, false, false, toks)
        }
    }
}

/// Whether the text holds nothing but spaces and newlines.
pub open spec fn blank(chars: Seq<char>) -> bool {
    forall|k: int| 0 <= k < chars.len() ==> #[trigger] chars[k] == ' ' || chars[k] == '\n'
}

/// The tokens of a source text, or why it is refused.
pub open spec fn spec_tokenize(chars: Seq<char>) -> Result<Seq<Seq<char>>, TokenizeError> {
    if blank(chars) {
        Err(TokenizeError::EmptyFile)
    } else {
        run(chars, 0, false, false, false, Seq::empty())
    }
}

/// The token strings of a tokenizer result, by their characters.
pub open spec fn token_views(r: Result<Vec<String>, TokenizeError>) -> Result<
    Seq<Seq<char>>,
    TokenizeError,
> {
    match r {
        Ok(v) => Ok(views(v@)),
        Err(e) => Err(e),
    }
}

/// The name of a one-character token (exec form of `pool_token`).
fn pool_token_exec(c: char) -> (r: Option<&'static str>)
    ensures
        r matches Some(t) ==> pool_token(c) == Some(t@),
        r is None ==> pool_token(c) is None,
{
    if c == ';' {
        Some("SEMI")
    } else if c == '+' {
        Some("PLUS")
    } else if c == '=' {
        Some("EQ")
    } else if c == '-' {
        Some("MIN")
    } else if c == '>' {
        Some("GT")
    } else if c == '*' {
        Some("TIMES")
    } else if c == '/' {
        Some("DIV")
    } else if c == '{' {
        Some("CURLO")
    } else if c == '}' {
        Some("CURLC")
    } else if c == '(' {
        Some("PARO")
    } else if c == ')' {
        Some("PARC")
    } else if c == ',' {
        Some("COMMA")
    } else if c == ':' {
        Some("COL")
    } else if c == '&' {
        Some("AMP")
    } else {
        None
    }
}

/// The rest of a string literal (the scan that `tokenize` runs once it has seen
/// the opening quote): characters from `i` on, escaped, appended to `buf`, up to
/// the closing quote; with the position after it.
pub fn tokenize_strings(chars: &Vec<char>, buf: Vec<char>, i: usize) -> (r: Result<
    (Vec<char>, usize),
    TokenizeError,
>)
    ensures
        match r {
            Ok((t, j)) => scan_string(chars@, i as int, buf@) == Ok::<(Seq<char>, int), TokenizeError>((t@, j as int)),
            Err(e) => scan_string(chars@, i as int, buf@) == Err::<(Seq<char>, int), TokenizeError>(e),
        },
{
    let ghost b0 = buf@;
    let mut acc = buf;
    let mut k = i;
    while k < chars.len() && chars[k] != '"'
        invariant
            scan_string(chars@, k as int, acc@) == scan_string(chars@, i as int, b0),
            b0 == buf@,
        decreases chars.len() - k,
    {
        let c = chars[k];
        let ghost before = acc@;
        if c == '%' {
            acc.push('\\');
        } else if c == '\\' {
            acc.push('\\');
            acc.push('\\');
        } else {
            acc.push(c);
        }
        assert(acc@ =~= before + escape(c));
        k += 1;
    }
    if k < chars.len() {
        acc.push(chars[k]);
    } else {
        return Err(TokenizeError::UnterminatedString);
    }
    Ok((acc, k + 1))
}

/// The rest of a list (the scan that `tokenize` runs once it has seen the
/// opening bracket): characters from `i` on, appended to `buf`, up to and
/// including the closing bracket; with the position after it.
pub fn tokenize_lists(chars: &Vec<char>, buf: Vec<char>, i: usize) -> (r: Result<
    (Vec<char>, usize),
    TokenizeError,
>)
    ensures
        match r {
            Ok((t, j)) => scan_list(chars@, i as int, buf@) == Ok::<(Seq<char>, int), TokenizeError>((t@, j as int)),
            Err(e) => scan_list(chars@, i as int, buf@) == Err::<(Seq<char>, int), TokenizeError>(e),
        },
{
    let ghost b0 = buf@;
    let mut acc = buf;
    let mut k = i;
    while k < chars.len() && chars[k] != ']'
        invariant
            scan_list(chars@, k as int, acc@) == scan_list(chars@, i as int, b0),
            b0 == buf@,
        decreases chars.len() - k,
    {
        if chars[k] == ' ' {
            assert(scan_list(chars@, k as int, acc@) == Err::<(Seq<char>, int), TokenizeError>(TokenizeError::SpaceInList));
            return Err(TokenizeError::SpaceInList);
        }
        let ghost before = acc@;
        if chars[k] == '"' {
            acc.push(chars[k]);
            let v = tokenize_strings(chars, sub_chars(&acc, 0, acc.len()), k);
            match v {
                Ok((t, j)) => {
                    let mut u: usize = 0;
                    let ghost b1 = acc@;
                    while u < t.len()
                        invariant
                            u <= t.len(),
                            acc@ == b1 + t@.take(u as int),
                        decreases t.len() - u,
                    {
                        acc.push(t[u]);
                        u += 1;
                        assert(acc@ =~= b1 + t@.take(u as int));
                    }
                    assert(t@.take(t.len() as int) =~= t@);
                    assert(t@ =~= b1.push('"'));
                    k = j;
                },
                Err(e) => {
                    return Err(e);
                },
            }
        } else {
            acc.push(chars[k]);
            k += 1;
        }
    }
    if k < chars.len() {
        acc.push(chars[k]);
    } else {
        return Err(TokenizeError::UnterminatedList);
    }
    Ok((acc, k + 1))
}

/// The tokens of a Butter source text, or why it is refused.
pub fn tokenize(code: &str) -> (r: Result<Vec<String>, TokenizeError>)
    ensures
        token_views(r) == spec_tokenize(code@),
{
    let chars = chars_of(code);
    let mut k: usize = 0;
    while k < chars.len() && (chars[k] == ' ' || chars[k] == '\n')
        invariant
            chars@ == code@,
            k <= chars.len(),
            forall|t: int| 0 <= t < k ==> #[trigger] chars@[t] == ' ' || chars@[t] == '\n',
        decreases chars.len() - k,
    {
        k += 1;
    }
    if k == chars.len() {
        return Err(TokenizeError::EmptyFile);
    }
    assert(!(chars@[k as int] == ' ' || chars@[k as int] == '\n'));
    assert(!blank(code@));
    let mut in_string = false;
    let mut in_list = false;
    let mut in_comment = false;
    let mut tokens: Vec<String> = Vec::new();
    let mut i: usize = 0;
    assert(views(tokens@) =~= Seq::<Seq<char>>::empty());
    while i < chars.len()
        invariant
            chars@ == code@,
            !blank(code@),
            i <= chars.len(),
            run(chars@, i as int, in_string, in_list, in_comment, views(tokens@)) == spec_tokenize(
                code@,
            ),
        decreases chars.len() - i,
    {
        let c = chars[i];
        let ghost toks = views(tokens@);
        if in_comment {
            if c == '\n' {
                in_comment = false;
            }
            i += 1;
        } else if c == '~' {
            in_comment = true;
            i += 1;
        } else if in_string {
            let quote = vec!['"'];
            assert(quote@ =~= seq!['"']);
            match tokenize_strings(&chars, quote, i) {
                Ok((t, j)) => {
                    proof {
                        lemma_scan_string(chars@, i as int, seq!['"']);
                    }
                    tokens.push(string_of(t.as_slice()));
                    assert(views(tokens@) =~= toks.push(t@));
                    in_string = false;
                    i = j;
                },
                Err(e) => {
                    return Err(e);
                },
            }
        } else if c == '"' {
            in_string = true;
            i += 1;
        } else if in_list {
            let empty: Vec<char> = Vec::new();
            assert(empty@ =~= Seq::<char>::empty());
            match tokenize_lists(&chars, empty, i) {
                Ok((t, j)) => {
                    proof {
                        lemma_scan_list(chars@, i as int, Seq::empty());
                    }
                    tokens.push(string_of(t.as_slice()));
                    assert(views(tokens@) =~= toks.push(t@));
                    in_list = false;
                    i = j;
                },
                Err(e) => {
                    return Err(e);
                },
            }
        } else if c == '[' {
            in_list = true;
            i += 1;
        } else if is_alphabetic(c) {
            let mut j = i + 1;
            while j < chars.len() && (is_alphanumeric(chars[j]) || chars[j] == '_')
                invariant
                    i < j <= chars.len(),
                    ident_end(chars@, j as int) == ident_end(chars@, i + 1),
                decreases chars.len() - j,
            {
                j += 1;
            }
            let t = sub_chars(&chars, i, j);
            tokens.push(string_of(t.as_slice()));
            assert(views(tokens@) =~= toks.push(chars@.subrange(i as int, j as int)));
            i = j;
        } else if is_numeric(c) {
            let mut j = i + 1;
            while j < chars.len() && is_numeric(chars[j])
                invariant
                    i < j <= chars.len(),
                    number_end(chars@, j as int) == number_end(chars@, i + 1),
                decreases chars.len() - j,
            {
                j += 1;
            }
            let t = sub_chars(&chars, i, j);
            tokens.push(string_of(t.as_slice()));
            assert(views(tokens@) =~= toks.push(chars@.subrange(i as int, j as int)));
            i = j;
        } else if let Some(name) = pool_token_exec(c) {
            if c == '-' && i + 1 < chars.len() && chars[i + 1] == '>' {
                tokens.push(lit("LET"));
                assert(views(tokens@) =~= toks.push("LET"@));
                i += 2;
            } else {
                tokens.push(lit(name));
                assert(views(tokens@) =~= toks.push(name@));
                i += 1;
            }
        } else if c == '\n' {
            if tokens.len() == 0 {
                return Err(TokenizeError::NewlineBeforeFirstToken);
            }
            let last = tokens.len() - 1;
            assert(toks.last() == tokens@[last as int]@);
            if same(tokens[last].as_str(), "SEMI") || same(tokens[last].as_str(), "CURLO") || same(
                tokens[last].as_str(),
                "CURLC",
            ) {
                i += 1;
            } else {
                return Err(TokenizeError::ExpectedSemicolon);
            }
        } else {
            i += 1;
        }
    }
    Ok(tokens)
}

// ---------------------------------------------------------------------------
// Laws
// ---------------------------------------------------------------------------

/// Whether every token holds at least one character.
pub open spec fn all_nonempty(toks: Seq<Seq<char>>) -> bool {
    forall|k: int| 0 <= k < toks.len() ==> #[trigger] toks[k].len() > 0
}

/// A scanned string literal is not empty.
pub proof fn lemma_scan_string_nonempty(chars: Seq<char>, i: int, buf: Seq<char>)
    ensures
        scan_string(chars, i, buf) matches Ok((t, j)) ==> t.len() > 0,
    decreases chars.len() - i,
{
    if 0 <= i < chars.len() && chars[i] != '"' {
        lemma_scan_string_nonempty(chars, i + 1, buf + escape(chars[i]));
    }
}

/// A scanned list is not empty.
pub proof fn lemma_scan_list_nonempty(chars: Seq<char>, i: int, buf: Seq<char>)
    ensures
        scan_list(chars, i, buf) matches Ok((t, j)) ==> t.len() > 0,
    decreases chars.len() - i,
{
    if 0 <= i < chars.len() && chars[i] != ']' && chars[i] != ' ' {
        if chars[i] == '"' {
            let b = buf.push('"');
            lemma_scan_list_nonempty(chars, i + 1, b + b.push('"'));
        } else {
            lemma_scan_list_nonempty(chars, i + 1, buf.push(chars[i]));
        }
    }
}

/// The name of a one-character token is not empty, nor is `LET`.
pub proof fn lemma_pool_token_nonempty(c: char)
    ensures
        pool_token(c) matches Some(t) ==> t.len() > 0,
        "LET"@.len() > 0,
{
    reveal_strlit("SEMI");
    reveal_strlit("PLUS");
    reveal_strlit("EQ");
    reveal_strlit("MIN");
    reveal_strlit("GT");
    reveal_strlit("TIMES");
    reveal_strlit("DIV");
    reveal_strlit("CURLO");
    reveal_strlit("CURLC");
    reveal_strlit("PARO");
    reveal_strlit("PARC");
    reveal_strlit("COMMA");
    reveal_strlit("COL");
    reveal_strlit("AMP");
    reveal_strlit("LET");
}

/// The tokenizer's run adds only non-empty tokens.
pub proof fn lemma_run_nonempty(
    chars: Seq<char>,
    i: int,
    in_string: bool,
    in_list: bool,
    in_comment: bool,
    toks: Seq<Seq<char>>,
)
    requires
        all_nonempty(toks),
    ensures
        run(chars, i, in_string, in_list, in_comment, toks) matches Ok(r) ==> all_nonempty(r),
    decreases chars.len() - i,
{
    if 0 <= i < chars.len() {
        let c = chars[i];
        if in_comment {
            lemma_run_nonempty(chars, i + 1, in_string, in_list, c != '\n', toks);
        } else if c == '~' {
            lemma_run_nonempty(chars, i + 1, in_string, in_list, true, toks);
        } else if in_string {
            lemma_scan_string(chars, i, seq!['"']);
            lemma_scan_string_nonempty(chars, i, seq!['"']);
            if let Ok((t, j)) = scan_string(chars, i, seq!['"']) {
                lemma_run_nonempty(chars, j, false, in_list, false, toks.push(t));
            }
        } else if c == '"' {
            lemma_run_nonempty(chars, i + 1, true, in_list, false, toks);
        } else if in_list {
            lemma_scan_list(chars, i, Seq::empty());
            lemma_scan_list_nonempty(chars, i, Seq::empty());
            if let Ok((t, j)) = scan_list(chars, i, Seq::empty()) {
                lemma_run_nonempty(chars, j, false, false, false, toks.push(t));
            }
        } else if c == '[' {
            lemma_run_nonempty(chars, i + 1, false, true, false, toks);
        } else if unicode_alphabetic(c) {
            lemma_ident_end(chars, i + 1);
            let e = ident_end(chars, i + 1);
            lemma_run_nonempty(chars, e, false, false, false, toks.push(chars.subrange(i, e)));
        } else if unicode_numeric(c) {
            lemma_number_end(chars, i + 1);
            let e = number_end(chars, i + 1);
            lemma_run_nonempty(chars, e, false, false, false, toks.push(chars.subrange(i, e)));
        } else if pool_token(c) is Some {
            lemma_pool_token_nonempty(c);
            if c == '-' && i + 1 < chars.len() && chars[i + 1] == '>' {
                lemma_run_nonempty(chars, i + 2, false, false, false, toks.push("LET"@));
            } else {
                lemma_run_nonempty(chars, i + 1, false, false, false, toks.push(pool_token(c).unwrap()));
            }
        } else if c == '\n' {
            if toks.len() > 0 && line_may_end(toks) {
                lemma_run_nonempty(chars, i + 1, false, false, false, toks);
            }
        } else {
            lemma_run_nonempty(chars, i + 1, false, false, false, toks);
        }
    }
}

/// No token of a tokenized text is empty.
pub proof fn law_tokens_nonempty(chars: Seq<char>)
    ensures
        spec_tokenize(chars) matches Ok(toks) ==> all_nonempty(toks),
{
    lemma_run_nonempty(chars, 0, false, false, false, Seq::empty());
}

/// Inside a comment, the run skips to just after the next newline, keeping the
/// string and list flags it had.
pub proof fn lemma_comment_run(
    chars: Seq<char>,
    k: int,
    j: int,
    in_string: bool,
    in_list: bool,
    toks: Seq<Seq<char>>,
)
    requires
        0 <= k <= j < chars.len(),
        chars[j] == '\n',
        forall|m: int| k <= m < j ==> chars[m] != '\n',
    ensures
        run(chars, k, in_string, in_list, true, toks) == run(chars, j + 1, in_string, in_list, false, toks),
    decreases j - k,
{
    if k < j {
        lemma_comment_run(chars, k + 1, j, in_string, in_list, toks);
    }
}

/// A comment is skipped: from a `~` to the end of its line the text adds no
/// token, and the tokenizer goes on after the newline in the state it had
/// before the `~`.
pub proof fn law_comment_skipped(
    chars: Seq<char>,
    i: int,
    j: int,
    in_string: bool,
    in_list: bool,
    toks: Seq<Seq<char>>,
)
    requires
        0 <= i < j < chars.len(),
        chars[i] == '~',
        chars[j] == '\n',
        forall|m: int| i < m < j ==> chars[m] != '\n',
    ensures
        run(chars, i, in_string, in_list, false, toks) == run(chars, j + 1, in_string, in_list, false, toks),
{
    lemma_comment_run(chars, i + 1, j, in_string, in_list, toks);
}

} // verus!
