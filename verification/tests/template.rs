use polymarket_agent::template::{remove_conditional_blocks, replace_conditional_block};

#[test]
fn test_replace_conditional_block_fills_content() {
    let template = b"Question: {{question}}\n{{#if weather_data}}Weather: {{weather}}{{/if}}\nEnd";
    let out = replace_conditional_block(template, b"weather_data", b"### Forecast\n");
    let text = String::from_utf8(out).unwrap();
    assert!(text.contains("### Forecast"));
    assert!(!text.contains("{{#if weather_data}}"));
    assert!(!text.contains("{{/if}}"));
    assert!(text.contains("Question: {{question}}"));
}

#[test]
fn test_remove_conditional_blocks_strips_spans() {
    let template = b"A\n{{#if weather_data}}W1{{/if}}\nB\n{{#if weather_data}}W2{{/if}}\nC";
    let out = remove_conditional_blocks(template, b"weather_data");
    let text = String::from_utf8(out).unwrap();
    assert_eq!(text, "A\nB\nC");
}

#[test]
fn test_remove_conditional_blocks_without_block_is_identity() {
    let template = b"No blocks here at all";
    let out = remove_conditional_blocks(template, b"sports_data");
    assert_eq!(out, template.to_vec());
}

#[test]
fn test_remove_only_named_variable() {
    let template = b"{{#if sports_data}}S{{/if}}{{#if weather_data}}W{{/if}}";
    let out = remove_conditional_blocks(template, b"sports_data");
    let text = String::from_utf8(out).unwrap();
    assert!(text.contains("{{#if weather_data}}W{{/if}}"));
    assert!(!text.contains("S{{/if}}{{#if weather_data}}") || !text.starts_with("{{#if sports_data}}"));
}
