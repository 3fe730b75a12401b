//! Countries, known by their two-letter codes.

use vstd::prelude::*;
use vstd::string::*;

verus! {

/// Whether `c` is one of the letters `A` to `Z`.
pub open spec fn is_code_letter(c: char) -> bool {
    'A' <= c && c <= 'Z'
}

/// Whether `code` has the shape of a country code: two letters `A` to `Z`.
pub open spec fn is_country_code(code: Seq<char>) -> bool {
    code.len() == 2 && is_code_letter(code[0]) && is_code_letter(code[1])
}

/// The code under which `code` is recognized as a country: itself where it
/// has the shape of a country code, nothing otherwise.
pub open spec fn recognized(code: Seq<char>) -> Option<Seq<char>> {
    if is_country_code(code) {
        Some(code)
    } else {
        None
    }
}

/// A country, identified by its two-letter code.
#[derive(Clone, Copy, Debug, PartialEq, Eq, Structural)]
pub struct Country {
    first: char,
    second: char,
}

impl View for Country {
    type V = Seq<char>;

    /// The country's code.
    closed spec fn view(&self) -> Seq<char> {
        seq![self.first, self.second]
    }
}

impl Country {
    /// The country that `code` names, where `code` has the shape of a country
    /// code; nothing for any other text, the empty one included.
    pub fn from_str(code: &str) -> (country: Option<Country>)
        ensures
            country is Some <==> is_country_code(code@),
            country matches Some(c) ==> c@ == code@,
    {
        if code.unicode_len() != 2 {
            return None;
        }
        let first = code.get_char(0);
        let second = code.get_char(1);
        if 'A' <= first && first <= 'Z' && 'A' <= second && second <= 'Z' {
            let country = Country { first, second };
            assert(country@ =~= code@);
            Some(country)
        } else {
            None
        }
    }

    /// The country's code.
    pub fn code(&self) -> (code: String)
        ensures
            code@ == self@,
    {
        let mut letters: Vec<char> = Vec::new();
        letters.push(self.first);
        letters.push(self.second);
        assert(letters@ =~= self@);
        crate::text::string_of(&letters)
    }
}

/// Two countries with the same code are the same country.
pub proof fn lemma_code_identifies_country(a: Country, b: Country)
    requires
        a@ == b@,
    ensures
        a == b,
{
    assert(a@[0] == b@[0]);
    assert(a@[1] == b@[1]);
}

} // verus!
