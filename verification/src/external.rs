//! The calls into outside crates that the library's logic makes, each behind
//! a small trusted item whose contract states what the crate's source shows.
use vstd::prelude::*;
use rand::Rng;

verus! {

// ------------------------------------------------------------ shell-words

#[verifier::external_type_specification]
#[verifier::external_body]
pub struct ExShellParseError(shell_words::ParseError);

/// Name for what `shell_words::split` gives on a string: `None` where it
/// reports a missing closing quote, otherwise the words it splits into.
pub uninterp spec fn shell_words_split(s: Seq<char>) -> Option<Seq<Seq<char>>>;

/// Whether `s` holds a single or a double quote character.
pub open spec fn has_quote(s: Seq<char>) -> bool {
    exists|i: int| 0 <= i < s.len() && (s[i] == '\'' || s[i] == '"')
}

/// `shell_words::split`. Its result is a function of the string alone and is
/// named by `shell_words_split`. The source returns an error only from its
/// single-quoted, double-quoted and escaped-in-double-quotes states, which are
/// entered only on a quote character; so a string without quotes always
/// splits. Which words come out is not stated beyond the name.
#[verifier::external_body]
pub(crate) fn shell_split(s: &str) -> (r: Result<Vec<String>, shell_words::ParseError>)
    ensures
        r is Err <==> shell_words_split(s@) is None,
        r matches Ok(v) ==> shell_words_split(s@) == Some(v@.map_values(|w: String| w@)),
        !has_quote(s@) ==> r is Ok,
{
    shell_words::split(s)
}

/// The `Display` text of `shell_words::ParseError`: the source writes the
/// fixed text `missing closing quote`.
#[verifier::external_body]
pub(crate) fn parse_error_text(e: &shell_words::ParseError) -> (s: String)
    ensures
        s@ == "missing closing quote"@,
{
    e.to_string()
}

// ------------------------------------------------------------------ rand

#[verifier::external_type_specification]
#[verifier::external_body]
pub struct ExThreadRng(rand::rngs::ThreadRng);

/// `rand::thread_rng`: a handle on the thread-local generator. Nothing is
/// stated of it.
#[verifier::external_body]
pub(crate) fn thread_rng() -> rand::rngs::ThreadRng {
    rand::thread_rng()
}

/// An ASCII letter or digit.
pub open spec fn is_ascii_alphanumeric(c: char) -> bool {
    ||| ('0' <= c && c <= '9')
    ||| ('A' <= c && c <= 'Z')
    ||| ('a' <= c && c <= 'z')
}

/// `Rng::sample_iter` with the `Alphanumeric` distribution, `len` samples
/// taken and turned into characters. The source samples each byte from the
/// 62 characters `A-Z`, `a-z`, `0-9`; which ones come out depends on chance
/// and is not stated.
#[verifier::external_body]
pub(crate) fn sample_alphanumeric(rng: rand::rngs::ThreadRng, len: usize) -> (s: String)
    ensures
        s@.len() == len,
        forall|i: int| 0 <= i < s@.len() ==> is_ascii_alphanumeric(#[trigger] s@[i]),
{
    rng.sample_iter(&rand::distributions::Alphanumeric).take(len).map(char::from).collect()
}

// ------------------------------------------------------------------ time

#[verifier::external_type_specification]
#[verifier::external_body]
pub struct ExOffsetDateTime(time::OffsetDateTime);

#[verifier::external_type_specification]
#[verifier::external_body]
pub struct ExTimeFormatError(time::error::Format);

/// `OffsetDateTime::now_utc`: the current time. Nothing is stated of it.
#[verifier::external_body]
pub(crate) fn now_utc() -> time::OffsetDateTime {
    time::OffsetDateTime::now_utc()
}

/// A character that RFC 3339 text as written by `time` may hold.
pub open spec fn is_rfc3339_char(c: char) -> bool {
    ||| ('0' <= c && c <= '9')
    ||| c == '-'
    ||| c == ':'
    ||| c == 'T'
    ||| c == '.'
    ||| c == 'Z'
    ||| c == '+'
}

/// A decimal digit.
pub open spec fn is_digit_char(c: char) -> bool {
    '0' <= c && c <= '9'
}

/// The shape of RFC 3339 text as `time` writes it: `YYYY-MM-DDTHH:MM:SS`
/// with every field zero-padded, then either `Z` or sub-second digits and a
/// signed `HH:MM` offset, all from the same small alphabet; so at least 20
/// characters, ending in `Z` or a digit.
pub open spec fn is_rfc3339_stamp(s: Seq<char>) -> bool {
    &&& s.len() >= 20
    &&& forall|i: int| 0 <= i < s.len() ==> is_rfc3339_char(#[trigger] s[i])
    &&& forall|i: int|
        0 <= i < 19 && i != 4 && i != 7 && i != 10 && i != 13 && i != 16 ==> is_digit_char(
            #[trigger] s[i],
        )
    &&& s[4] == '-' && s[7] == '-'
    &&& s[10] == 'T'
    &&& s[13] == ':' && s[16] == ':'
    &&& (s.last() == 'Z' || is_digit_char(s.last()))
}

/// `OffsetDateTime::format` with the well-known `Rfc3339` description. The
/// source writes a four-digit year, `-`, two-digit month, `-`, two-digit day,
/// `T`, two-digit hour, `:`, minute, `:`, second, each zero-padded; then `.`
/// and digits where there are nanoseconds; then `Z` for a UTC offset, or `+`
/// or `-` and a zero-padded `HH:MM`. It fails only on a year outside
/// `0..10000`, an offset hour beyond 23 or an offset with seconds. Which
/// date comes out depends on the value and is not stated, nor when it fails.
#[verifier::external_body]
pub(crate) fn format_rfc3339(t: time::OffsetDateTime) -> (r: Result<String, time::error::Format>)
    ensures
        r matches Ok(s) ==> is_rfc3339_stamp(s@),
{
    t.format(&time::format_description::well_known::Rfc3339)
}

} // verus!
