use llama_serve::prompt::{user_prompt, wrap_user_turn};

#[test]
fn wrap_user_turn_adds_markers() {
    assert_eq!(
        wrap_user_turn("What is Rust?"),
        "<|im_start|>user\nWhat is Rust?\n<|im_end|>\n<|im_start|>assistant"
    );
}

#[test]
fn user_prompt_trims_question() {
    assert_eq!(
        user_prompt("  \n hello there \t\n"),
        "<|im_start|>user\nhello there\n<|im_end|>\n<|im_start|>assistant"
    );
}

#[test]
fn user_prompt_of_blank_question() {
    assert_eq!(user_prompt("   "), "<|im_start|>user\n\n<|im_end|>\n<|im_start|>assistant");
}
