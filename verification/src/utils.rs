use vstd::prelude::*;
use vstd::string::StrSliceExecFns;
use crate::error::Error;
use crate::format::RoundingMode;

verus! {

/// The textual label of a rounding mode.
pub open spec fn label_of(mode: RoundingMode) -> Seq<char> {
    match mode {
        RoundingMode::Floor => "Floor"@,
        RoundingMode::Ceiling => "Ceiling"@,
        RoundingMode::TowardZero => "TowardZero"@,
        RoundingMode::AwayFromZero => "AwayFromZero"@,
    }
}

/// The rounding mode that the characters `label` name, if any.
pub open spec fn mode_of(label: Seq<char>) -> Option<RoundingMode> {
    if label == "Floor"@ {
        Some(RoundingMode::Floor)
    } else if label == "Ceiling"@ {
        Some(RoundingMode::Ceiling)
    } else if label == "TowardZero"@ {
        Some(RoundingMode::TowardZero)
    } else if label == "AwayFromZero"@ {
        Some(RoundingMode::AwayFromZero)
    } else {
        None
    }
}

/// The result of parsing the characters `label`.
pub open spec fn parsed(label: Seq<char>) -> Result<RoundingMode, Error> {
    match mode_of(label) {
        Some(mode) => Ok(mode),
        None => Err(Error::UnknownRoundingMode),
    }
}

/// Each mode is named by its own label and by no other text: the four
/// labels differ from one another.
pub proof fn lemma_labels(label: Seq<char>, mode: RoundingMode)
    ensures
        mode_of(label_of(mode)) == Some(mode),
        mode_of(label) == Some(mode) <==> label == label_of(mode),
{
    reveal_strlit("Floor");
    reveal_strlit("Ceiling");
    reveal_strlit("TowardZero");
    reveal_strlit("AwayFromZero");
    assert("Floor"@.len() == 5);
    assert("Ceiling"@.len() == 7);
    assert("TowardZero"@.len() == 10);
    assert("AwayFromZero"@.len() == 12);
}

/// Whether two strings hold the same characters.
pub fn str_eq(a: &str, b: &str) -> (r: bool)
    ensures
        r == (a@ == b@),
{
    let n: usize = a.unicode_len();
    if n != b.unicode_len() {
        return false;
    }
    let mut i: usize = 0;
    while i < n
        invariant
            i <= n,
            n == a@.len(),
            n == b@.len(),
            forall|j: int| 0 <= j < i ==> a@[j] == b@[j],
        decreases n - i,
    {
        if a.get_char(i) != b.get_char(i) {
            return false;
        }
        i = i + 1;
    }
    assert(a@ =~= b@);
    true
}

/// The rounding mode that `label` names. The labels are `Floor`, `Ceiling`,
/// `TowardZero` and `AwayFromZero`, letter for letter; any other text is
/// reported as `UnknownRoundingMode`.
pub fn find_rounding(label: &str) -> (r: Result<RoundingMode, Error>)
    ensures
        r == parsed(label@),
{
    if str_eq(label, "Floor") {
        Ok(RoundingMode::Floor)
    } else if str_eq(label, "Ceiling") {
        Ok(RoundingMode::Ceiling)
    } else if str_eq(label, "TowardZero") {
        Ok(RoundingMode::TowardZero)
    } else if str_eq(label, "AwayFromZero") {
        Ok(RoundingMode::AwayFromZero)
    } else {
        Err(Error::UnknownRoundingMode)
    }
}

impl RoundingMode {
    /// The rounding mode that `label` names, as `find_rounding` gives it.
    pub fn parse(label: &str) -> (r: Result<RoundingMode, Error>)
        ensures
            r == parsed(label@),
    {
        find_rounding(label)
    }

    /// The textual label of the mode.
    pub fn label(&self) -> (r: &'static str)
        ensures
            r@ == label_of(*self),
    {
        match self {
            RoundingMode::Floor => "Floor",
            RoundingMode::Ceiling => "Ceiling",
            RoundingMode::TowardZero => "TowardZero",
            RoundingMode::AwayFromZero => "AwayFromZero",
        }
    }
}

} // verus!
