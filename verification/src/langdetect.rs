//! Best-effort language tagging of extracted text.
use vstd::prelude::*;

use crate::text;

verus! {

/// What whatlang's statistical detection makes of a text: the code of the
/// detected language, or nothing; a function of the text alone.
pub uninterp spec fn detected_lang_of(s: Seq<char>) -> Option<Seq<char>>;

/// Relies on whatlang's `detect`: a deterministic statistical guess at the
/// language of the text; the ISO 639-3 code of the guess, or nothing when
/// no script can be recognized.
#[verifier::external_body]
pub fn detect_lang_code(s: &str) -> (r: Option<String>)
    ensures
        text::opt_sv(r) == detected_lang_of(s@),
{
    whatlang::detect(s).map(|i| i.lang().code().to_string())
}

} // verus!
