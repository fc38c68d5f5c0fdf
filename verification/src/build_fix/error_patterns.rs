//! What the output of a failed build says.

use vstd::prelude::*;

verus! {

/// The group of the pattern that holds the object file.
pub const CAP_OBJ: &'static str = "obj";

/// The group of the pattern that holds the project file.
pub const CAP_VCXPROJ: &'static str = "vcxproj";

/// The pattern of a linker failure: an object file, a fatal linker error, and in brackets the
/// project file.
pub const LNK_OBJ_VCXPROJ_PATTERN: &'static str =
    r"(?is)(?P<obj>[a-zA-Z0-9_\-.]+\.obj)\s*:\s*fatal error LNK\d{4}:.*?\[(?P<vcxproj>[^\]]+\.vcxproj)\]";

/// What `regex` captures in a text with a pattern: for each match, in the order of the text, what
/// the two named groups hold, which is nothing for a group that takes no part; `None` where the
/// pattern does not compile, which also rests on how much memory it takes up with pointers of this
/// width.
pub uninterp spec fn captures_of(
    pattern: Seq<char>,
    first: Seq<char>,
    second: Seq<char>,
    text: Seq<char>,
    pointer_bits: u32,
) -> Option<Seq<(Seq<char>, Seq<char>)>>;

/// The content of pairs of texts.
pub open spec fn pair_views(pairs: Seq<(String, String)>) -> Seq<(Seq<char>, Seq<char>)> {
    Seq::new(pairs.len(), |i: int| (pairs[i].0@, pairs[i].1@))
}

/// `regex::Regex::captures_iter` with a pattern: for each match, in the order of the text, what
/// the two named groups hold; `None` where the pattern does not compile.
#[verifier::external_body]
fn captured_pairs(pattern: &str, first: &str, second: &str, text: &str) -> (r: Option<
    Vec<(String, String)>,
>)
    ensures
        (match r {
            Some(pairs) => Some(pair_views(pairs@)),
            None => None,
        }) == captures_of(pattern@, first@, second@, text@, usize::BITS),
{
    let re = regex::Regex::new(pattern).ok()?;
    let group = |c: &regex::Captures, name: &str| {
        c.name(name).map(|m| m.as_str().to_string()).unwrap_or_default()
    };
    Some(re.captures_iter(text).map(|c| (group(&c, first), group(&c, second))).collect())
}

/// The linker failures in some output: for each the object file and the project file; `None`
/// where the pattern of a linker failure does not compile.
pub open spec fn linker_failures_in(output: Seq<char>) -> Option<Seq<(Seq<char>, Seq<char>)>> {
    captures_of(LNK_OBJ_VCXPROJ_PATTERN@, CAP_OBJ@, CAP_VCXPROJ@, output, usize::BITS)
}

/// The linker failures in some output: for each the object file and the project file; `None`
/// where the pattern of a linker failure does not compile.
pub fn lnk_obj_vcxproj_regex(output: &str) -> (r: Option<Vec<(String, String)>>)
    ensures
        (match r {
            Some(pairs) => Some(pair_views(pairs@)),
            None => None,
        }) == linker_failures_in(output@),
{
    captured_pairs(LNK_OBJ_VCXPROJ_PATTERN, CAP_OBJ, CAP_VCXPROJ, output)
}

/// Linker failures are an object file, a fatal linker error, and in brackets a project file,
/// whatever the case of their letters and whatever stands between the last two.
pub proof fn law_linker_failures_are_found(output: &str, r: Option<Vec<(String, String)>>)
    requires
        call_ensures(lnk_obj_vcxproj_regex, (output,), r),
    ensures
        ({
            let found = captures_of(
                r"(?is)(?P<obj>[a-zA-Z0-9_\-.]+\.obj)\s*:\s*fatal error LNK\d{4}:.*?\[(?P<vcxproj>[^\]]+\.vcxproj)\]"@,
                "obj"@,
                "vcxproj"@,
                output@,
                usize::BITS,
            );
            match r {
                Some(pairs) => found == Some(pair_views(pairs@)),
                None => found is None,
            }
        }),
{
}

} // verus!
