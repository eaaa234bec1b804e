use vstd::prelude::*;

verus! {

/// Whether the regular expression written as `pattern` matches somewhere
/// in `text`. The match relation of the regex crate is a function of the
/// two strings alone; its definition is not restated here.
pub uninterp spec fn regex_match(pattern: Seq<char>, text: Seq<char>) -> bool;

#[verifier::external_type_specification]
#[verifier::external_body]
pub struct ExRegex(regex::Regex);

/// A compiled group-name filter: a regular expression together with the
/// pattern it was compiled from.
///
/// The only constructor is `compile`, so the two fields always belong
/// together; `is_match` states its result over the stored pattern.
pub struct Matcher {
    re: regex::Regex,
    pattern: String,
}

impl Matcher {
    /// The pattern this matcher was compiled from.
    pub closed spec fn spec_pattern(&self) -> Seq<char> {
        self.pattern@
    }

    /// Relies on regex::Regex::new: it compiles `pattern`, succeeding
    /// exactly on valid regex syntax; the pattern itself is stored
    /// alongside the compiled form.
    #[verifier::external_body]
    pub fn compile(pattern: &str) -> (r: Option<Matcher>)
        ensures
            r matches Some(m) ==> m.spec_pattern() == pattern@,
    {
        match regex::Regex::new(pattern) {
            Ok(re) => Some(Matcher { re, pattern: pattern.to_string() }),
            Err(_) => None,
        }
    }

    /// Relies on regex::Regex::is_match: its result depends only on the
    /// pattern the regex was compiled from and on `text`.
    #[verifier::external_body]
    pub fn is_match(&self, text: &str) -> (r: bool)
        ensures
            r == regex_match(self.spec_pattern(), text@),
    {
        self.re.is_match(text)
    }
}

} // verus!
