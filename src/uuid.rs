use vstd::prelude::*;
use crate::error::{Error, ErrorKind};
use crate::text::str_eq;

verus! {

pub open spec fn is_hex_digit(c: char) -> bool {
    ('0' <= c && c <= '9') || ('a' <= c && c <= 'f') || ('A' <= c && c <= 'F')
}

/// Positions of the four hyphens in the hyphenated form 8-4-4-4-12.
pub open spec fn is_hyphen_position(i: int) -> bool {
    i == 8 || i == 13 || i == 18 || i == 23
}

/// The hyphenated form of a UUID, 8-4-4-4-12 hex digits in either case.
pub open spec fn hyphenated_text(s: Seq<char>) -> bool {
    &&& s.len() == 36
    &&& forall|i: int| 0 <= i < 36 ==> if is_hyphen_position(i) {
        #[trigger] s[i] == '-'
    } else {
        is_hex_digit(s[i])
    }
}

/// The simple form of a UUID: 32 hex digits.
pub open spec fn simple_text(s: Seq<char>) -> bool {
    s.len() == 32 && forall|i: int| 0 <= i < 32 ==> is_hex_digit(#[trigger] s[i])
}

/// The braced form of a UUID: the hyphenated form between `{` and `}`.
pub open spec fn braced_text(s: Seq<char>) -> bool {
    s.len() == 38 && s[0] == '{' && s[37] == '}' && hyphenated_text(s.subrange(1, 37))
}

/// The URN form of a UUID: `urn:uuid:` and the hyphenated form.
pub open spec fn urn_text(s: Seq<char>) -> bool {
    s.len() == 45 && s.subrange(0, 9) == "urn:uuid:"@ && hyphenated_text(s.subrange(9, 45))
}

/// The texts read as a UUID: the hyphenated, simple, braced and URN forms.
pub open spec fn uuid_text(s: Seq<char>) -> bool {
    hyphenated_text(s) || simple_text(s) || braced_text(s) || urn_text(s)
}

/// How many hyphens the hyphenated form has before position `i`.
pub open spec fn hyphens_before(i: int) -> int {
    if i < 8 {
        0
    } else if i < 13 {
        1
    } else if i < 18 {
        2
    } else if i < 23 {
        3
    } else {
        4
    }
}

/// The hyphenated form of 32 hex digits.
pub open spec fn hyphenate(s: Seq<char>) -> Seq<char> {
    Seq::new(36, |i: int| if is_hyphen_position(i) { '-' } else { s[i - hyphens_before(i)] })
}

/// The hyphenated part of a UUID text, whatever its form.
pub open spec fn uuid_core(s: Seq<char>) -> Seq<char> {
    if s.len() == 32 {
        hyphenate(s)
    } else if s.len() == 38 {
        s.subrange(1, 37)
    } else if s.len() == 45 {
        s.subrange(9, 45)
    } else {
        s
    }
}

pub open spec fn lower_char(c: char) -> char {
    if 'A' <= c && c <= 'F' {
        ((c as u32) + 32) as char
    } else {
        c
    }
}

/// The canonical form of a UUID text: hyphenated, hex digits in lower case.
pub open spec fn canonical_uuid(s: Seq<char>) -> Seq<char> {
    uuid_core(s).map_values(|c: char| lower_char(c))
}

/// A task identifier, held in its canonical lower-case hyphenated form.
#[derive(Debug)]
pub struct Uuid {
    text: String,
}

impl Uuid {
    pub closed spec fn view(&self) -> Seq<char> {
        self.text@
    }

    pub open spec fn wf(&self) -> bool {
        uuid_text(self.view()) && canonical_uuid(self.view()) == self.view()
    }

    /// The canonical text of the identifier.
    pub fn to_string(&self) -> (r: String)
        ensures
            r@ == self.view(),
    {
        self.text.clone()
    }

    pub fn as_str(&self) -> (r: &str)
        ensures
            r@ == self.view(),
    {
        self.text.as_str()
    }

    pub fn same(&self, other: &Uuid) -> (r: bool)
        ensures
            r == (self.view() == other.view()),
    {
        self.text == other.text
    }
}

impl Clone for Uuid {
    fn clone(&self) -> (r: Self)
        ensures
            r == *self,
    {
        Uuid { text: self.text.clone() }
    }
}

impl PartialEq for Uuid {
    fn eq(&self, other: &Uuid) -> (r: bool) {
        self.text == other.text
    }
}

impl vstd::std_specs::cmp::PartialEqSpecImpl for Uuid {
    open spec fn obeys_eq_spec() -> bool {
        true
    }

    open spec fn eq_spec(&self, other: &Uuid) -> bool {
        self.view() == other.view()
    }
}

fn char_is_hex_digit(c: char) -> (r: bool)
    ensures
        r == is_hex_digit(c),
{
    ('0' <= c && c <= '9') || ('a' <= c && c <= 'f') || ('A' <= c && c <= 'F')
}

/// Reads the hyphenated form, bringing its hex digits to lower case.
fn parse_hyphenated(s: &str) -> (r: Option<String>)
    ensures
        r is Some <==> hyphenated_text(s@),
        r is Some ==> r->0@ == s@.map_values(|c: char| lower_char(c)),
{
    let n = s.unicode_len();
    if n != 36 {
        return None;
    }
    let lower = "abcdef";
    proof {
        reveal_strlit("abcdef");
    }
    let mut text = String::new();
    let mut i: usize = 0;
    while i < 36
        invariant
            n == s@.len() == 36,
            i <= 36,
            lower@ =~= seq!['a', 'b', 'c', 'd', 'e', 'f'],
            forall|k: int| 0 <= k < i ==> if is_hyphen_position(k) {
                #[trigger] s@[k] == '-'
            } else {
                is_hex_digit(s@[k])
            },
            text@ =~= s@.subrange(0, i as int).map_values(|c: char| lower_char(c)),
        decreases 36 - i,
    {
        let c = s.get_char(i);
        let ok = if i == 8 || i == 13 || i == 18 || i == 23 {
            c == '-'
        } else {
            char_is_hex_digit(c)
        };
        if !ok {
            return None;
        }
        if 'A' <= c && c <= 'F' {
            let d = (c as u32 - 'A' as u32) as usize;
            let piece = lower.substring_char(d, d + 1);
            text.append(piece);
            proof {
                assert(piece@ =~= seq![lower_char(c)]);
            }
        } else {
            let piece = s.substring_char(i, i + 1);
            text.append(piece);
            proof {
                assert(piece@ =~= seq![lower_char(c)]);
            }
        }
        proof {
            assert(s@.subrange(0, i + 1) =~= s@.subrange(0, i as int).push(c));
        }
        i = i + 1;
    }
    proof {
        assert(s@.subrange(0, 36) =~= s@);
    }
    Some(text)
}

/// Lower-casing the hex digits of a hyphenated form keeps it hyphenated and canonical.
proof fn lemma_lowered_is_canonical(s: Seq<char>)
    requires
        hyphenated_text(s),
    ensures
        hyphenated_text(s.map_values(|c: char| lower_char(c))),
        canonical_uuid(s.map_values(|c: char| lower_char(c))) == s.map_values(|c: char| lower_char(c)),
{
    let t = s.map_values(|c: char| lower_char(c));
    assert forall|k: int| 0 <= k < 36 implies if is_hyphen_position(k) {
        #[trigger] t[k] == '-'
    } else {
        is_hex_digit(t[k])
    } by {
        assert(if is_hyphen_position(k) { s[k] == '-' } else { is_hex_digit(s[k]) });
    }
    assert(canonical_uuid(t) =~= t);
}

/// 32 characters are hex digits exactly when their hyphenated form is a hyphenated UUID.
proof fn lemma_hyphenate(s: Seq<char>)
    requires
        s.len() == 32,
    ensures
        hyphenated_text(hyphenate(s)) <==> simple_text(s),
{
    let h = hyphenate(s);
    if simple_text(s) {
        assert forall|i: int| 0 <= i < 36 implies if is_hyphen_position(i) {
            #[trigger] h[i] == '-'
        } else {
            is_hex_digit(h[i])
        } by {
            if !is_hyphen_position(i) {
                assert(is_hex_digit(s[i - hyphens_before(i)]));
            }
        }
    }
    if hyphenated_text(h) {
        assert forall|k: int| 0 <= k < 32 implies is_hex_digit(#[trigger] s[k]) by {
            let i = if k < 8 {
                k
            } else if k < 12 {
                k + 1
            } else if k < 16 {
                k + 2
            } else if k < 20 {
                k + 3
            } else {
                k + 4
            };
            assert(!is_hyphen_position(i) && i - hyphens_before(i) == k);
            assert(h[i] == s[k]);
        }
    }
}

fn invalid_uuid(s: &str) -> (r: Error)
    ensures
        r.kind == ErrorKind::Validation,
{
    let mut msg = String::from_str("Invalid UUID format: '");
    msg.append(s);
    msg.append("'. Expected format: xxxxxxxx-xxxx-xxxx-xxxx-xxxxxxxxxxxx");
    Error { kind: ErrorKind::Validation, message: msg }
}

/// Parses a UUID in its hyphenated, simple (32 digits), braced (`{...}`) or
/// URN (`urn:uuid:...`) form. Upper-case hex digits are accepted, and the
/// identifier is held hyphenated in lower case.
pub fn uuid2tc(s: &str) -> (r: Result<Uuid, Error>)
    ensures
        r is Ok <==> uuid_text(s@),
        r is Ok ==> r->Ok_0.view() == canonical_uuid(s@) && r->Ok_0.wf(),
        r is Err ==> r->Err_0.kind == ErrorKind::Validation,
{
    let n = s.unicode_len();
    let parsed = if n == 36 {
        parse_hyphenated(s)
    } else if n == 38 {
        if s.get_char(0) == '{' && s.get_char(37) == '}' {
            parse_hyphenated(s.substring_char(1, 37))
        } else {
            None
        }
    } else if n == 45 {
        let prefix = s.substring_char(0, 9);
        if str_eq(prefix, "urn:uuid:") {
            parse_hyphenated(s.substring_char(9, 45))
        } else {
            None
        }
    } else if n == 32 {
        let mut h = String::from_str(s.substring_char(0, 8));
        h.append("-");
        h.append(s.substring_char(8, 12));
        h.append("-");
        h.append(s.substring_char(12, 16));
        h.append("-");
        h.append(s.substring_char(16, 20));
        h.append("-");
        h.append(s.substring_char(20, 32));
        proof {
            reveal_strlit("-");
            assert(h@ =~= hyphenate(s@));
            lemma_hyphenate(s@);
        }
        parse_hyphenated(h.as_str())
    } else {
        None
    };
    match parsed {
        Some(text) => {
            proof {
                lemma_lowered_is_canonical(uuid_core(s@));
            }
            Ok(Uuid { text })
        },
        None => Err(invalid_uuid(s)),
    }
}

} // verus!
