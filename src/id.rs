use crate::error::Error;
use rand::seq::SliceRandom;
use vstd::prelude::*;

verus! {

/// Number of symbols in an identifier.
pub const ID_SIZE: usize = 16;

/// A lower-case hexadecimal digit.
pub open spec fn is_hex_digit(c: char) -> bool {
    ('0' <= c && c <= '9') || ('a' <= c && c <= 'f')
}

/// Well-formed identifier text: exactly sixteen hexadecimal digits.
pub open spec fn is_id_text(s: Seq<char>) -> bool {
    &&& s.len() == ID_SIZE
    &&& forall|i: int| 0 <= i < s.len() ==> is_hex_digit(#[trigger] s[i])
}

/// One hexadecimal digit, as a string.
pub open spec fn is_symbol(s: Seq<char>) -> bool {
    s.len() == 1 && is_hex_digit(s[0])
}

/// Relies on rand's `SliceRandom::choose` with the thread-local generator:
/// it returns one element of a non-empty slice.
#[verifier::external_body]
fn choose_symbol(symbols: &[&'static str]) -> (r: &'static str)
    requires
        symbols@.len() > 0,
    ensures
        symbols@.contains(r),
{
    *symbols.choose(&mut rand::thread_rng()).unwrap()
}

/// Unique item identifier: always sixteen lower-case hexadecimal digits.
#[derive(Debug, Hash)]
pub struct Id {
    text: String,
}

impl View for Id {
    type V = Seq<char>;

    closed spec fn view(&self) -> Seq<char> {
        self.text@
    }
}

impl Id {
    #[verifier::type_invariant]
    spec fn well_formed(self) -> bool {
        is_id_text(self.text@)
    }

    /// Draw an identifier: each of its sixteen symbols is picked at random
    /// from the hexadecimal alphabet.
    pub fn random() -> (r: Id)
        ensures
            is_id_text(r@),
    {
        let symbols: [&'static str; 16] = [
            "0", "1", "2", "3", "4", "5", "6", "7", "8", "9", "a", "b", "c", "d", "e", "f",
        ];
        proof {
            reveal_strlit("0");
            reveal_strlit("1");
            reveal_strlit("2");
            reveal_strlit("3");
            reveal_strlit("4");
            reveal_strlit("5");
            reveal_strlit("6");
            reveal_strlit("7");
            reveal_strlit("8");
            reveal_strlit("9");
            reveal_strlit("a");
            reveal_strlit("b");
            reveal_strlit("c");
            reveal_strlit("d");
            reveal_strlit("e");
            reveal_strlit("f");
        }
        assert(forall|k: int|
            0 <= k < 16 ==> (#[trigger] symbols@[k])@.len() == 1 && is_hex_digit(symbols@[k]@[0]));
        let mut draws: Vec<&'static str> = Vec::new();
        for n in 0..ID_SIZE
            invariant
                draws@.len() == n,
                forall|i: int| 0 <= i < n ==> is_symbol((#[trigger] draws@[i])@),
                forall|k: int|
                    0 <= k < 16 ==> (#[trigger] symbols@[k])@.len() == 1 && is_hex_digit(
                        symbols@[k]@[0],
                    ),
        {
            let d = choose_symbol(symbols.as_slice());
            draws.push(d);
        }
        Id::from_symbols(draws.as_slice())
    }

    /// The identifier spelled by sixteen one-digit strings, in order.
    pub fn from_symbols(d: &[&str]) -> (r: Id)
        requires
            d@.len() == ID_SIZE,
            forall|k: int| 0 <= k < d@.len() ==> is_symbol((#[trigger] d@[k])@),
        ensures
            is_id_text(r@),
            forall|k: int| 0 <= k < ID_SIZE ==> r@[k] == (#[trigger] d@[k])@[0],
    {
        let mut text = String::new();
        for n in 0..ID_SIZE
            invariant
                d@.len() == ID_SIZE,
                forall|k: int| 0 <= k < d@.len() ==> is_symbol((#[trigger] d@[k])@),
                text@.len() == n,
                forall|i: int| 0 <= i < n ==> text@[i] == (#[trigger] d@[i])@[0],
        {
            let ghost before = text@;
            text.append(d[n]);
            proof {
                assert(is_symbol(d@[n as int]@));
                assert forall|i: int| 0 <= i < n + 1 implies text@[i] == (#[trigger] d@[i])@[0] by {
                    if i < n {
                        assert(text@[i] == before[i]);
                    }
                }
            }
        }
        proof {
            assert forall|i: int| 0 <= i < text@.len() implies is_hex_digit(#[trigger] text@[i]) by {
                assert(is_symbol(d@[i]@));
            }
        }
        Id { text }
    }

    /// Parse identifier text.
    ///
    /// Beyond the length, the alphabet is checked too, so that every `Id`
    /// names a well-formed document file and always converts back to text.
    pub fn parse(s: &str) -> (r: Result<Id, Error>)
        ensures
            r is Ok <==> is_id_text(s@),
            r matches Ok(id) ==> id@ == s@,
            r matches Err(e) ==> e is InvalidId,
    {
        let mut n: usize = 0;
        let mut ok = true;
        for c in it: s.chars()
            invariant
                it.seq() == s@,
                n == (if it.index() <= ID_SIZE + 1 { it.index() as int } else { ID_SIZE + 1 }),
                ok <==> forall|i: int|
                    0 <= i < it.index() && i < ID_SIZE ==> is_hex_digit(#[trigger] s@[i]),
        {
            if n < ID_SIZE && !(('0' <= c && c <= '9') || ('a' <= c && c <= 'f')) {
                ok = false;
            }
            if n <= ID_SIZE {
                n = n + 1;
            }
        }
        if ok && n == ID_SIZE {
            Ok(Id { text: s.to_owned() })
        } else {
            Err(Error::InvalidId)
        }
    }

    /// The identifier as text: always sixteen hexadecimal digits.
    pub fn to_str(&self) -> (r: Result<&str, Error>)
        ensures
            r matches Ok(s) && s@ == self@,
            is_id_text(self@),
    {
        proof {
            use_type_invariant(self);
        }
        Ok(self.text.as_str())
    }
}

impl PartialEq for Id {
    fn eq(&self, other: &Id) -> (r: bool)
        ensures
            r == (self@ == other@),
    {
        self.text == other.text
    }
}

impl vstd::std_specs::cmp::PartialEqSpecImpl for Id {
    open spec fn obeys_eq_spec() -> bool {
        true
    }

    open spec fn eq_spec(&self, other: &Id) -> bool {
        self@ == other@
    }
}

impl Eq for Id {

}

impl Clone for Id {
    fn clone(&self) -> (r: Id)
        ensures
            r@ == self@,
    {
        proof {
            use_type_invariant(self);
        }
        Id { text: self.text.clone() }
    }
}

impl std::str::FromStr for Id {
    type Err = Error;

    fn from_str(s: &str) -> (r: Result<Id, Error>)
        ensures
            r is Ok <==> is_id_text(s@),
            r matches Ok(id) ==> id@ == s@,
            r matches Err(e) ==> e is InvalidId,
    {
        Id::parse(s)
    }
}

} // verus!
