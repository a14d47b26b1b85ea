use mabe::formatter::{format_msg, generic_format};

#[test]
fn test_generic_format() {
    // Example 1: Even number of curly braces.
    let msg1 = "The placeholders are: {x}, {{y}} and {z}.".to_string();
    let (formatted_msg1, extracted_args_msg1) = generic_format(msg1);
    assert_eq!(formatted_msg1, "The placeholders are: {placeholder0}, {{y}} and {placeholder1}.");
    assert_eq!(extracted_args_msg1, vec!["x".to_string(), "z".to_string()]);

    // Example 2: Uneven number of curly braces.
    let msg2 = "The placeholders are: {x}, {{{y}}} and {z}}}.".to_string();
    let (formatted_msg2, extracted_args_msg2) = generic_format(msg2);
    assert_eq!(
        formatted_msg2,
        "The placeholders are: {placeholder0}, {{{placeholder1}}} and {placeholder2}}}."
    );
    assert_eq!(extracted_args_msg2, vec!["x".to_string(), "y".to_string(), "z".to_string()]);

    // Example 3: Even number of curly braces.
    let msg3 = "The placeholders are: {{x}}, {{{{y}}}} and {{{{z}}.".to_string();
    let (formatted_msg3, extracted_args_msg3) = generic_format(msg3);
    assert_eq!(formatted_msg3, "The placeholders are: {{x}}, {{{{y}}}} and {{{{z}}.");
    assert_eq!(extracted_args_msg3, Vec::<String>::new());

    // Example 4: Empty curly braces.
    let msg4 = "The placeholders are: {}, {{}}}} and {{{ }.".to_string();
    let (formatted_msg4, extracted_args_msg4) = generic_format(msg4);
    assert_eq!(formatted_msg4, "The placeholders are: {placeholder0}, {{}}}} and {{{placeholder1}.");
    assert_eq!(extracted_args_msg4, vec!["".to_string(), " ".to_string()]);

    // Example 5: Unbalanced curly braces.
    let msg5 = "The placeholders are: {x}}, {y} and z.".to_string();
    let (formatted_msg5, extracted_args_msg5) = generic_format(msg5);
    assert_eq!(formatted_msg5, "The placeholders are: {placeholder0} and z.");
    assert_eq!(extracted_args_msg5, vec!["x}}, {y".to_string()]);
}

#[test]
fn test_format_msg() {
    // Example 1: Even number of curly braces.
    let msg1 = "The placeholders are: {x}, {{y}} and {z}.".to_string();
    let (formatted_msg1, extracted_args_msg1) = format_msg(&msg1);
    assert_eq!(formatted_msg1, "The placeholders are: {placeholder0}, {{y}} and {placeholder1}.");
    assert_eq!(extracted_args_msg1, vec!["x".to_string(), "z".to_string()]);

    // Example 2: Uneven number of curly braces.
    let msg2 = "The placeholders are: {x}, {{{y}}} and {z}}}.".to_string();
    let (formatted_msg2, extracted_args_msg2) = format_msg(&msg2);
    assert_eq!(
        formatted_msg2,
        "The placeholders are: {placeholder0}, {{{placeholder1}}} and {placeholder2}}}."
    );
    assert_eq!(extracted_args_msg2, vec!["x".to_string(), "y".to_string(), "z".to_string()]);

    // Example 3: Even number of curly braces.
    let msg3 = "The placeholders are: {{x}}, {{{{y}}}} and {{{{z}}.".to_string();
    let (formatted_msg3, extracted_args_msg3) = format_msg(&msg3);
    assert_eq!(formatted_msg3, "The placeholders are: {{x}}, {{{{y}}}} and {{{{z}}.");
    assert_eq!(extracted_args_msg3, Vec::<String>::new());

    // Example 4: Empty curly braces.
    let msg4 = "The placeholders are: {}, {{}}}} and {{{ }.".to_string();
    let (formatted_msg4, extracted_args_msg4) = format_msg(&msg4);
    assert_eq!(formatted_msg4, "The placeholders are: {placeholder0}, {{}}}} and {{{placeholder1}.");
    assert_eq!(extracted_args_msg4, vec!["".to_string(), " ".to_string()]);

    // Example 5: Unbalanced curly braces.
    let msg5 = "The placeholders are: {x}}, {y} and z.".to_string();
    let (formatted_msg5, extracted_args_msg5) = format_msg(&msg5);
    assert_eq!(formatted_msg5, "The placeholders are: {placeholder0} and z.");
    assert_eq!(extracted_args_msg5, vec!["x}}, {y".to_string()]);
}

#[test]
fn even_runs_are_left_alone() {
    let (formatted, args) = generic_format("{{x}}".to_string());
    assert_eq!(formatted, "{{x}}");
    assert_eq!(args, Vec::<String>::new());

    let (formatted, args) = generic_format("{{{{}}}}".to_string());
    assert_eq!(formatted, "{{{{}}}}");
    assert_eq!(args, Vec::<String>::new());
}

#[test]
fn odd_runs_extract_the_content() {
    let (formatted, args) = generic_format("The placeholders are: {x}, {{{y}}} and {z}}}.".to_string());
    assert_eq!(formatted, "The placeholders are: {placeholder0}, {{{placeholder1}}} and {placeholder2}}}.");
    assert_eq!(args, vec!["x".to_string(), "y".to_string(), "z".to_string()]);
}

#[test]
fn unbalanced_braces_absorb_text() {
    let (formatted, args) = generic_format("The placeholders are: {x}}, {y} and z.".to_string());
    assert_eq!(formatted, "The placeholders are: {placeholder0} and z.");
    assert_eq!(args, vec!["x}}, {y".to_string()]);
}

#[test]
fn empty_placeholder_is_kept() {
    let (formatted, args) = generic_format("{}".to_string());
    assert_eq!(formatted, "{placeholder0}");
    assert_eq!(args, vec!["".to_string()]);
}

#[test]
fn lone_open_brace_stands_for_itself() {
    let (formatted, args) = generic_format("This is a {test.".to_string());
    assert_eq!(formatted, "This is a {placeholder0}test.");
    assert_eq!(args, vec!["{".to_string()]);
}

#[test]
fn lone_close_brace_stands_for_itself() {
    let (formatted, args) = generic_format("This is a test}.".to_string());
    assert_eq!(formatted, "This is a test{placeholder0}.");
    assert_eq!(args, vec!["}".to_string()]);
}

#[test]
fn close_before_open_is_detected_on_its_own() {
    let (formatted, args) = generic_format("}{x}".to_string());
    assert_eq!(formatted, "{placeholder0}{placeholder1}");
    assert_eq!(args, vec!["}".to_string(), "x".to_string()]);
}

#[test]
fn formatting_extracting_nothing_is_identity() {
    let input = "no braces at all".to_string();
    let (first, first_args) = generic_format(input.clone());
    assert_eq!(first, input);
    assert!(first_args.is_empty());

    let (second, second_args) = generic_format(first.clone());
    assert_eq!(second, first);
    assert!(second_args.is_empty());

    let escaped = "{{x}} and }} and {{".to_string();
    let (normalized, args) = generic_format(escaped.clone());
    assert_eq!(normalized, escaped);
    assert!(args.is_empty());
    let (again, again_args) = generic_format(normalized.clone());
    assert_eq!(again, normalized);
    assert!(again_args.is_empty());
}

#[test]
fn markers_reach_two_digits() {
    let (formatted, args) = generic_format("{a}{b}{c}{d}{e}{f}{g}{h}{i}{j}{k}".to_string());
    assert_eq!(args.len(), 11);
    assert!(formatted.ends_with("{placeholder10}"));
    assert_eq!(
        formatted,
        "{placeholder0}{placeholder1}{placeholder2}{placeholder3}{placeholder4}{placeholder5}\
         {placeholder6}{placeholder7}{placeholder8}{placeholder9}{placeholder10}"
    );
    assert_eq!(args[10], "k");
}

#[test]
fn mixed_runs_follow_the_asymmetric_tie_break() {
    // Odd runs on both sides: the pair is the last left brace and the first
    // right brace; the even remainders stay literal text.
    let (formatted, args) =
        generic_format("The solution message for Error4. This is a {{{test}}}".to_string());
    assert_eq!(formatted, "The solution message for Error4. This is a {{{placeholder0}}}");
    assert_eq!(args, vec!["test".to_string()]);

    // An even left run is escaped, the single right brace stands alone.
    let (formatted, args) =
        generic_format("The error message for Error8. This is a {{test}.".to_string());
    assert_eq!(formatted, "The error message for Error8. This is a {{test{placeholder0}.");
    assert_eq!(args, vec!["}".to_string()]);

    // A single left brace against an even right run: the right run is
    // escaped, so the left brace stands alone.
    let (formatted, args) =
        generic_format("The error message for Error5. This is a {test.".to_string());
    assert_eq!(formatted, "The error message for Error5. This is a {placeholder0}test.");
    assert_eq!(args, vec!["{".to_string()]);

    // A five-brace right run is odd: its first brace closes the placeholder
    // and absorbs the left braces in between.
    let (formatted, args) =
        generic_format("The reason message for Error13. This is a {test{{}}}}}.".to_string());
    assert_eq!(formatted, "The reason message for Error13. This is a {placeholder0}}}}}.");
    assert_eq!(args, vec!["test{{".to_string()]);

    // Two placeholders back to back, the second one empty.
    let (formatted, args) =
        generic_format("The solution message for Error13. This is a {{{test}{}.".to_string());
    assert_eq!(
        formatted,
        "The solution message for Error13. This is a {{{placeholder0}{placeholder1}."
    );
    assert_eq!(args, vec!["test".to_string(), "".to_string()]);
}

#[test]
fn multi_byte_text_is_indexed_by_characters() {
    let (formatted, args) = generic_format("caf\u{e9} {pr\u{e9}nom} \u{2603}}}".to_string());
    assert_eq!(formatted, "caf\u{e9} {placeholder0} \u{2603}}}");
    assert_eq!(args, vec!["pr\u{e9}nom".to_string()]);
}
