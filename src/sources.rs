//! Decoding source files, and preparing the text of a VHDL source file for
//! structural extraction: comments,
//! standard-library clauses and bodies that hold no structure are removed, and
//! the rest is lower-cased.
use vstd::prelude::*;
use encoding::Encoding;

verus! {

pub const COMMENT: &'static str = r"(?m)(?P<comment>--.*?)$";

pub const STD_LIBS: &'static str = r"(?imsx)^\s*library\s+(ieee|std)\b";

pub const USE_STD_LIBS: &'static str = r"(?imsx)^\s*use\s+(ieee|std)\.\S+";

pub const PROCESS: &'static str = r"(?imsx)
            (?:\w+\s*:\s*)?         # optional process name
            \bprocess\b.*?          # start of process
            \bend\s+process.*?;     # end   of process";

pub const ENTITY: &'static str = r"(?imsx)
            (?P<start>\bentity\s+(?P<name>\w+)\s+IS\s+)
                (?P<content>.*?)
            (?P<end>\bend(\s*(;|(\s+[^;]*?;))))";

pub const FUNC_PROC: &'static str = r"(?imsx)\b(?P<type>function|procedure)\b.*?\bbegin\b
            (
                .*?
                |
                (.*?\bend\s+(if|case|loop)\b)
            )+
            \bend\b.*?;";

pub const ARCHITECTURE: &'static str = r"(?imsx)
            (?P<start>\barchitecture\s+(?P<name>\w+)\s+of\s+(?P<entity>\w+)\s+is\s+)
                (?P<definitions>.*?)
                (?P<content>\bbegin\b.*?)
            (?P<end>\bend(;|\s+[^;]*?;))";

pub const SIGNAL_OR_VARIABLE: &'static str = r"(?imsx)\b(?:constant|signal|variable)\b.*?;";

pub const GENERATE: &'static str = r"(?imx)^.*\bgenerate\b.*?$";

pub const NOTHING: &'static str = "";

pub const ENTITY_KEPT: &'static str = "$start $end";

pub const ARCHITECTURE_KEPT: &'static str = "$start $content $end";

/// The text whose characters have the codes of `bytes`, one for one (ISO-8859-1).
pub open spec fn latin1(bytes: Seq<u8>) -> Seq<char> {
    bytes.map_values(|b: u8| b as char)
}

/// Relies on encoding's ISO_8859_1 decoder (Encoding::decode with
/// DecoderTrap::Strict): each byte becomes the character with the same code, and
/// no byte is refused.
#[verifier::external_body]
fn decode_latin1(bytes: &[u8]) -> (r: String)
    ensures
        r@ == latin1(bytes@),
{
    match encoding::all::ISO_8859_1.decode(bytes, encoding::DecoderTrap::Strict) {
        Ok(s) => s,
        Err(_) => String::new(),
    }
}

/// The text of a source file stored as ISO-8859-1.
pub fn decode_source(bytes: &[u8]) -> (r: String)
    ensures
        r@ == latin1(bytes@),
{
    decode_latin1(bytes)
}

/// The text that replacing every match of `pattern` in `text` by `replacement`
/// gives, `$name` in `replacement` standing for the match of group `name`.
pub uninterp spec fn regex_replaced(pattern: Seq<char>, text: Seq<char>, replacement: Seq<char>) -> Seq<char>;

/// Whether `pattern` is a regular expression that compiles.
pub uninterp spec fn regex_compiles(pattern: Seq<char>) -> bool;

/// Relies on regex::Regex::new, which compiles `pattern` or fails depending on the
/// pattern alone, and on Regex::replace_all, which replaces every non-overlapping
/// match: the result depends on the three texts alone.
#[verifier::external_body]
fn replace_all(pattern: &str, text: &str, replacement: &str) -> (r: Option<String>)
    ensures
        r is Some <==> regex_compiles(pattern@),
        r is Some ==> r->Some_0@ == regex_replaced(pattern@, text@, replacement@),
{
    match regex::Regex::new(pattern) {
        Ok(re) => Some(re.replace_all(text, replacement).into_owned()),
        Err(_) => None,
    }
}

/// `d` is `c` with an ASCII upper-case letter turned into its lower-case form.
pub open spec fn lowered(c: char, d: char) -> bool {
    if 'A' <= c && c <= 'Z' {
        d as u32 == c as u32 + 32
    } else {
        d == c
    }
}

pub open spec fn lowered_text(a: Seq<char>, b: Seq<char>) -> bool {
    a.len() == b.len() && forall|i: int| 0 <= i < a.len() ==> lowered(#[trigger] a[i], b[i])
}

/// Relies on str::to_ascii_lowercase: each ASCII letter 'A' to 'Z' becomes 'a'
/// to 'z', every other character stays.
#[verifier::external_body]
fn ascii_lowercase(s: &str) -> (r: String)
    ensures
        lowered_text(s@, r@),
{
    s.to_ascii_lowercase()
}

/// The source text with comments, standard-library clauses, processes, entity
/// ports and generics, subprograms, architecture declarations, signal, constant
/// and variable declarations and generate lines removed, in that order.
pub open spec fn stripped(input: Seq<char>) -> Seq<char> {
    let t1 = regex_replaced(COMMENT@, input, NOTHING@);
    let t2 = regex_replaced(STD_LIBS@, t1, NOTHING@);
    let t3 = regex_replaced(USE_STD_LIBS@, t2, NOTHING@);
    let t4 = regex_replaced(PROCESS@, t3, NOTHING@);
    let t5 = regex_replaced(ENTITY@, t4, ENTITY_KEPT@);
    let t6 = regex_replaced(FUNC_PROC@, t5, NOTHING@);
    let t7 = regex_replaced(ARCHITECTURE@, t6, ARCHITECTURE_KEPT@);
    let t8 = regex_replaced(SIGNAL_OR_VARIABLE@, t7, NOTHING@);
    regex_replaced(GENERATE@, t8, NOTHING@)
}

/// Whether every pattern that `stripped` applies compiles.
pub open spec fn patterns_compile() -> bool {
    &&& regex_compiles(COMMENT@)
    &&& regex_compiles(STD_LIBS@)
    &&& regex_compiles(USE_STD_LIBS@)
    &&& regex_compiles(PROCESS@)
    &&& regex_compiles(ENTITY@)
    &&& regex_compiles(FUNC_PROC@)
    &&& regex_compiles(ARCHITECTURE@)
    &&& regex_compiles(SIGNAL_OR_VARIABLE@)
    &&& regex_compiles(GENERATE@)
}

/// The source text reduced to its structure, as `stripped` states, and
/// lower-cased; `None` exactly when one of the patterns does not compile.
pub fn pre_work_file_content(input: &str) -> (r: Option<String>)
    ensures
        r is Some <==> patterns_compile(),
        r is Some ==> lowered_text(stripped(input@), r->Some_0@),
{
    let t1 = replace_all(COMMENT, input, NOTHING)?;
    let t2 = replace_all(STD_LIBS, t1.as_str(), NOTHING)?;
    let t3 = replace_all(USE_STD_LIBS, t2.as_str(), NOTHING)?;
    let t4 = replace_all(PROCESS, t3.as_str(), NOTHING)?;
    let t5 = replace_all(ENTITY, t4.as_str(), ENTITY_KEPT)?;
    let t6 = replace_all(FUNC_PROC, t5.as_str(), NOTHING)?;
    let t7 = replace_all(ARCHITECTURE, t6.as_str(), ARCHITECTURE_KEPT)?;
    let t8 = replace_all(SIGNAL_OR_VARIABLE, t7.as_str(), NOTHING)?;
    let t9 = replace_all(GENERATE, t8.as_str(), NOTHING)?;
    Some(ascii_lowercase(t9.as_str()))
}

/// The structure of a VHDL source file stored as ISO-8859-1, as
/// `pre_work_file_content` states for its text.
pub fn source_structure(bytes: &[u8]) -> (r: Option<String>)
    ensures
        r is Some <==> patterns_compile(),
        r is Some ==> lowered_text(stripped(latin1(bytes@)), r->Some_0@),
{
    let text = decode_source(bytes);
    pre_work_file_content(text.as_str())
}

} // verus!
