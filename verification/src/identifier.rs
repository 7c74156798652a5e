//! Identifiers: the names of modules, structs and fields.

use vstd::prelude::*;
use vstd::string::*;

verus! {

/// A character that may start an identifier: an ASCII letter or `_`.
pub open spec fn is_identifier_start(c: char) -> bool {
    ('a' <= c && c <= 'z') || ('A' <= c && c <= 'Z') || c == '_'
}

/// A character that may follow in an identifier: an ASCII letter, an ASCII
/// digit or `_`.
pub open spec fn is_identifier_rest(c: char) -> bool {
    is_identifier_start(c) || ('0' <= c && c <= '9')
}

/// The text is an identifier: it is not empty, starts with a letter or `_`
/// and goes on with letters, digits and `_`.
pub open spec fn is_valid_identifier(s: Seq<char>) -> bool {
    &&& s.len() > 0
    &&& is_identifier_start(s[0])
    &&& forall|i: int| 1 <= i < s.len() ==> is_identifier_rest(#[trigger] s[i])
}

/// The bytes of an identifier's text, one for each character.
pub open spec fn identifier_bytes(s: Seq<char>) -> Seq<u8> {
    Seq::new(s.len(), |i: int| s[i] as u8)
}

/// An identifier holds ASCII characters only.
pub proof fn lemma_identifier_is_ascii(s: Seq<char>)
    requires
        is_valid_identifier(s),
    ensures
        vstd::utf8::is_ascii_chars(s),
{
    assert forall|i: int| 0 <= i < s.len() implies '\0' <= #[trigger] s[i] <= '\u{7f}' by {
        if i == 0 {
            assert(is_identifier_start(s[0]));
        } else {
            assert(is_identifier_rest(s[i]));
        }
    }
}

/// Why a text was not taken for an identifier.
#[derive(Clone, Copy, Debug, PartialEq, Eq, Structural)]
pub enum IdentifierError {
    /// The text is empty, starts with a digit or holds a character that no
    /// identifier may hold.
    Invalid,
}

/// A text that is known to be an identifier.
#[derive(Debug, PartialEq, Eq, Hash, PartialOrd, Ord)]
pub struct Identifier {
    text: String,
}

impl Clone for Identifier {
    fn clone(&self) -> (r: Self)
        ensures
            r@ == self@,
    {
        proof {
            use_type_invariant(self);
        }
        Identifier { text: self.text.clone() }
    }
}

impl View for Identifier {
    type V = Seq<char>;

    closed spec fn view(&self) -> Seq<char> {
        self.text@
    }
}

fn byte_is_start(b: u8) -> (r: bool)
    ensures
        r == ((97 <= b && b <= 122) || (65 <= b && b <= 90) || b == 95),
{
    (97 <= b && b <= 122) || (65 <= b && b <= 90) || b == 95
}

fn byte_is_rest(b: u8) -> (r: bool)
    ensures
        r == ((97 <= b && b <= 122) || (65 <= b && b <= 90) || b == 95 || (48 <= b && b <= 57)),
{
    byte_is_start(b) || (48 <= b && b <= 57)
}

impl Identifier {
    /// Whether the text is an identifier.
    pub fn is_valid(s: &str) -> (r: bool)
        ensures
            r == is_valid_identifier(s@),
    {
        if !s.is_ascii() {
            proof {
                let bad = choose|i: int|
                    0 <= i < s@.len() && !('\0' <= #[trigger] s@[i] <= '\u{7f}');
                assert(!is_identifier_rest(s@[bad]));
            }
            return false;
        }
        let n = s.unicode_len();
        if n == 0 {
            return false;
        }
        if !byte_is_start(s.get_ascii(0)) {
            return false;
        }
        let mut i: usize = 1;
        while i < n
            invariant
                1 <= i <= n,
                n == s@.len(),
                is_ascii(s),
                forall|j: int| 1 <= j < i ==> is_identifier_rest(#[trigger] s@[j]),
            decreases n - i,
        {
            if !byte_is_rest(s.get_ascii(i)) {
                return false;
            }
            i += 1;
        }
        true
    }

    /// Takes the text for an identifier, if it is one.
    pub fn new(text: String) -> (r: Result<Identifier, IdentifierError>)
        ensures
            is_valid_identifier(text@) <==> r is Ok,
            r matches Ok(id) ==> id@ == text@,
            r matches Err(e) ==> e == IdentifierError::Invalid,
    {
        if Identifier::is_valid(text.as_str()) {
            Ok(Identifier { text })
        } else {
            Err(IdentifierError::Invalid)
        }
    }

    #[verifier::type_invariant]
    spec fn valid(&self) -> bool {
        is_valid_identifier(self.text@)
    }

    /// The text of the identifier, which is a valid one.
    pub fn as_str(&self) -> (s: &str)
        ensures
            s@ == self@,
            is_valid_identifier(self@),
    {
        proof {
            use_type_invariant(self);
        }
        self.text.as_str()
    }

    /// The bytes of the text: one for each character, since an identifier
    /// holds ASCII only.
    pub fn to_bytes(&self) -> (v: Vec<u8>)
        ensures
            v@ == identifier_bytes(self@),
            is_valid_identifier(self@),
    {
        proof {
            use_type_invariant(self);
            lemma_identifier_is_ascii(self.text@);
        }
        let s = self.text.as_str();
        broadcast use is_ascii_spec_bytes;
        assert(is_ascii(s));
        let mut v: Vec<u8> = Vec::new();
        crate::bytes::append_bytes(&mut v, s.as_bytes());
        assert(v@ =~= identifier_bytes(self@));
        v
    }

    /// Gives the text back.
    pub fn into_string(self) -> (s: String)
        ensures
            s@ == self@,
    {
        self.text
    }
}

} // verus!
