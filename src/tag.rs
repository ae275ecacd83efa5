use vstd::prelude::*;
use crate::error::{Error, ErrorKind, validation_error};
use crate::text::{is_space, char_is_space, str_eq};

verus! {

/// Characters that a user tag may not contain.
pub open spec fn is_reserved_tag_char(c: char) -> bool {
    c == '+' || c == '-' || c == '*' || c == '/' || c == '(' || c == '<' || c == '>' || c == '^' || c == '!'
        || c == ' ' || c == '%' || c == '=' || c == '~'
}

pub open spec fn all_upper(s: Seq<char>) -> bool {
    forall|i: int| 0 <= i < s.len() ==> 'A' <= #[trigger] s[i] && s[i] <= 'Z'
}

/// The names of the tags that the engine derives from a task's state.
pub open spec fn synthetic_name(s: Seq<char>) -> bool {
    s == "WAITING"@ || s == "ACTIVE"@ || s == "PENDING"@ || s == "COMPLETED"@ || s == "DELETED"@
        || s == "BLOCKED"@ || s == "UNBLOCKED"@ || s == "BLOCKING"@
}

/// A tag that users set: it does not start with a digit, and holds no white
/// space and no reserved character.
pub open spec fn user_tag(s: Seq<char>) -> bool {
    &&& s.len() > 0
    &&& !('0' <= s[0] && s[0] <= '9')
    &&& forall|i: int| 0 <= i < s.len() ==> !is_space(#[trigger] s[i]) && !is_reserved_tag_char(s[i])
}

/// Which texts are tags: an all-capitals text only when it names a synthetic tag.
pub open spec fn valid_tag(s: Seq<char>) -> bool {
    if all_upper(s) {
        synthetic_name(s)
    } else {
        user_tag(s)
    }
}

/// A task tag.
#[derive(Debug)]
pub struct Tag {
    name: String,
}

fn char_is_reserved(c: char) -> (r: bool)
    ensures
        r == is_reserved_tag_char(c),
{
    c == '+' || c == '-' || c == '*' || c == '/' || c == '(' || c == '<' || c == '>' || c == '^' || c == '!'
        || c == ' ' || c == '%' || c == '=' || c == '~'
}

impl Tag {
    pub closed spec fn view(&self) -> Seq<char> {
        self.name@
    }

    pub open spec fn wf(&self) -> bool {
        valid_tag(self.view())
    }

    pub open spec fn is_synthetic_spec(&self) -> bool {
        all_upper(self.view())
    }

    /// Parses a tag.
    pub fn new(tag: &str) -> (r: Result<Tag, Error>)
        ensures
            r is Ok <==> valid_tag(tag@),
            r is Ok ==> r->Ok_0.view() == tag@ && r->Ok_0.wf(),
            r is Err ==> r->Err_0.kind == ErrorKind::Validation,
    {
        let n = tag.unicode_len();
        let mut upper = true;
        let mut i: usize = 0;
        while i < n
            invariant
                n == tag@.len(),
                i <= n,
                upper == (forall|k: int| 0 <= k < i ==> 'A' <= #[trigger] tag@[k] && tag@[k] <= 'Z'),
            decreases n - i,
        {
            let c = tag.get_char(i);
            if !('A' <= c && c <= 'Z') {
                upper = false;
            }
            i = i + 1;
        }
        if upper {
            if str_eq(tag, "WAITING") || str_eq(tag, "ACTIVE") || str_eq(tag, "PENDING") || str_eq(tag, "COMPLETED")
                || str_eq(tag, "DELETED") || str_eq(tag, "BLOCKED") || str_eq(tag, "UNBLOCKED")
                || str_eq(tag, "BLOCKING") {
                return Ok(Tag { name: String::from_str(tag) });
            }
            return Err(validation_error("Invalid tag"));
        }
        let first = tag.get_char(0);
        if '0' <= first && first <= '9' {
            return Err(validation_error("Invalid tag"));
        }
        let mut j: usize = 0;
        while j < n
            invariant
                n == tag@.len(),
                j <= n,
                forall|k: int| 0 <= k < j ==> !is_space(#[trigger] tag@[k]) && !is_reserved_tag_char(tag@[k]),
            decreases n - j,
        {
            let c = tag.get_char(j);
            if char_is_space(c) || char_is_reserved(c) {
                return Err(validation_error("Invalid tag"));
            }
            j = j + 1;
        }
        Ok(Tag { name: String::from_str(tag) })
    }

    pub fn to_s(&self) -> (r: String)
        ensures
            r@ == self.view(),
    {
        self.name.clone()
    }

    pub fn as_str(&self) -> (r: &str)
        ensures
            r@ == self.view(),
    {
        self.name.as_str()
    }

    /// Synthetic tags are derived from a task's state and cannot be set.
    pub fn synthetic(&self) -> (r: bool)
        ensures
            r == self.is_synthetic_spec(),
    {
        let n = self.name.as_str().unicode_len();
        let mut i: usize = 0;
        while i < n
            invariant
                n == self.view().len(),
                i <= n,
                forall|k: int| 0 <= k < i ==> 'A' <= #[trigger] self.view()[k] && self.view()[k] <= 'Z',
            decreases n - i,
        {
            let c = self.name.as_str().get_char(i);
            if !('A' <= c && c <= 'Z') {
                return false;
            }
            i = i + 1;
        }
        true
    }

    pub fn user(&self) -> (r: bool)
        ensures
            r == !self.is_synthetic_spec(),
    {
        !self.synthetic()
    }

    pub fn eql(&self, other: &Tag) -> (r: bool)
        ensures
            r == (self.view() == other.view()),
    {
        self.name == other.name
    }
}

impl Clone for Tag {
    fn clone(&self) -> (r: Self)
        ensures
            r == *self,
    {
        Tag { name: self.name.clone() }
    }
}

} // verus!
