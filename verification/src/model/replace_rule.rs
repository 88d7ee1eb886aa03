use vstd::prelude::*;

verus! {

/// A rule that cleans the text of chapters.
#[derive(Debug, Clone, Default)]
pub struct ReplaceRule {
    pub is_enabled: bool,
    pub is_regex: bool,
    pub pattern: String,
    pub replacement: String,
}

pub struct ReplaceV {
    pub is_enabled: bool,
    pub is_regex: bool,
    pub pattern: Seq<char>,
    pub replacement: Seq<char>,
}

impl ReplaceRule {
    pub open spec fn model(self) -> ReplaceV {
        ReplaceV {
            is_enabled: self.is_enabled,
            is_regex: self.is_regex,
            pattern: self.pattern@,
            replacement: self.replacement@,
        }
    }
}

pub open spec fn replace_models(v: Seq<ReplaceRule>) -> Seq<ReplaceV> {
    Seq::new(v.len(), |i: int| v[i].model())
}

} // verus!
