use vstd::prelude::*;

verus! {

/// What a payload holds, as plain sequences of characters.
pub ghost struct PayloadView {
    pub sender: Seq<char>,
    pub content: Seq<char>,
}

/// One chat message: an unauthenticated sender label and its text.
#[derive(Debug)]
pub struct MessagePayload {
    pub sender: String,
    pub content: String,
}

impl View for MessagePayload {
    type V = PayloadView;

    open spec fn view(&self) -> PayloadView {
        PayloadView { sender: self.sender@, content: self.content@ }
    }
}

/// Whether `c` has the Unicode `White_Space` property (listed in the Unicode Character
/// Database's `PropList.txt`).
pub open spec fn white_space(c: char) -> bool {
    let n = c as u32;
    (0x09 <= n <= 0x0d) || n == 0x20 || n == 0x85 || n == 0xa0 || n == 0x1680 || (0x2000 <= n
        <= 0x200a) || n == 0x2028 || n == 0x2029 || n == 0x202f || n == 0x205f || n == 0x3000
}

/// A text is blank when every one of its characters is white space (the empty text included).
pub open spec fn is_blank(s: Seq<char>) -> bool {
    forall|i: int| 0 <= i < s.len() ==> white_space(#[trigger] s[i])
}

/// Relies on `char::is_whitespace`: whether the character has the `White_Space` property.
#[verifier::external_body]
fn char_is_whitespace(c: char) -> (r: bool)
    ensures
        r == white_space(c),
{
    c.is_whitespace()
}

impl MessagePayload {
    pub fn new(sender: String, content: String) -> (r: MessagePayload)
        ensures
            r.sender@ == sender@,
            r.content@ == content@,
    {
        MessagePayload { sender, content }
    }

    /// Whether the content consists only of white space; such content is never relayed.
    pub fn has_blank_content(&self) -> (r: bool)
        ensures
            r == is_blank(self.content@),
    {
        let chars = crate::codec::chars_of(self.content.as_str());
        let mut i: usize = 0;
        while i < chars.len()
            invariant
                chars@ == self.content@,
                i <= chars.len(),
                forall|j: int| 0 <= j < i ==> white_space(#[trigger] chars@[j]),
            decreases chars.len() - i,
        {
            if !char_is_whitespace(chars[i]) {
                return false;
            }
            i = i + 1;
        }
        true
    }
}

impl Clone for MessagePayload {
    fn clone(&self) -> (r: MessagePayload)
        ensures
            r@ == self@,
    {
        MessagePayload { sender: self.sender.clone(), content: self.content.clone() }
    }
}

impl PartialEq for MessagePayload {
    fn eq(&self, o: &MessagePayload) -> (r: bool) {
        self.sender == o.sender && self.content == o.content
    }
}

impl vstd::std_specs::cmp::PartialEqSpecImpl for MessagePayload {
    open spec fn obeys_eq_spec() -> bool {
        true
    }

    open spec fn eq_spec(&self, o: &MessagePayload) -> bool {
        self@ == o@
    }
}

} // verus!
