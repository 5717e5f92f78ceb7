use vstd::prelude::*;
use vstd::string::*;

verus! {

/// What `str::trim` makes of a text: the text without leading and trailing whitespace.
pub uninterp spec fn trimmed(s: Seq<char>) -> Seq<char>;

/// Relies on `str::trim`: the result depends on the characters of `s` alone.
#[verifier::external_body]
fn trim_text(s: &str) -> (r: String)
    ensures
        r@ == trimmed(s@),
{
    s.trim().to_string()
}

/// The chat turn that asks `question` and opens the assistant's reply.
pub open spec fn user_turn(question: Seq<char>) -> Seq<char> {
    "<|im_start|>user\n"@ + question + "\n<|im_end|>\n<|im_start|>assistant"@
}

/// Wraps an already trimmed question in the user-turn markers.
pub fn wrap_user_turn(question: &str) -> (r: String)
    ensures
        r@ == user_turn(question@),
{
    let mut r = String::from_str("<|im_start|>user\n");
    r.append(question);
    r.append("\n<|im_end|>\n<|im_start|>assistant");
    r
}

/// The prompt sent to the model for a user's question, trimmed of surrounding whitespace.
pub fn user_prompt(question: &str) -> (r: String)
    ensures
        r@ == user_turn(trimmed(question@)),
{
    let t = trim_text(question);
    wrap_user_turn(t.as_str())
}

} // verus!
