use aeditor::completion::{
    answer, answer_generation, clean_suggestion, completion_context, completion_generation,
    completion_prompt, request_url, suggestions, Generation, Part, AFTER_CHARS, CONTEXT_LINES,
};

fn part(thought: bool, text: Option<&str>) -> Part {
    Part { thought, text: text.map(|t| t.to_string()) }
}

fn std_context(text: &str, cursor: usize) -> (String, String) {
    let before = text.chars().take(cursor).collect::<String>();
    let after = text.chars().skip(cursor).take(200).collect::<String>();
    let lines: Vec<&str> = before.lines().rev().take(15).collect();
    let context = lines.into_iter().rev().collect::<Vec<&str>>().join("\n");
    (context, after)
}

fn std_clean(text: &str, language: &str) -> String {
    text.trim()
        .trim_start_matches("```")
        .trim_start_matches(language)
        .trim_end_matches("```")
        .trim()
        .to_string()
}

#[test]
fn generation_of_completions() {
    let fast = Generation { thinking_budget: 0, include_thoughts: false, max_output_tokens: 120 };
    let agent = Generation { thinking_budget: -1, include_thoughts: true, max_output_tokens: 512 };
    assert_eq!(completion_generation(None), fast);
    assert_eq!(completion_generation(Some(false)), fast);
    assert_eq!(completion_generation(Some(true)), agent);
}

#[test]
fn generation_of_answers() {
    assert_eq!(
        answer_generation(true),
        Generation { thinking_budget: -1, include_thoughts: true, max_output_tokens: 2048 }
    );
    assert_eq!(
        answer_generation(false),
        Generation { thinking_budget: 0, include_thoughts: false, max_output_tokens: 1024 }
    );
}

#[test]
fn request_url_needs_a_key() {
    assert_eq!(request_url("gemini-pro", ""), None);
    assert_eq!(
        request_url("gemini-pro", "k1"),
        Some(
            "https://generativelanguage.googleapis.com/v1beta/models/gemini-pro:generateContent?key=k1"
                .to_string()
        )
    );
}

#[test]
fn context_is_the_text_around_the_cursor() {
    assert_eq!(CONTEXT_LINES, 15);
    assert_eq!(AFTER_CHARS, 200);
    let (context, after) = completion_context("let a = 1;\nlet b = a", 14);
    assert_eq!(context, "let a = 1;\nlet");
    assert_eq!(after, " b = a");
}

#[test]
fn context_keeps_the_last_fifteen_lines() {
    let text: String = (1..=20).map(|i| format!("line {}\n", i)).collect::<String>() + "tail";
    let cursor = text.chars().count();
    let (context, after) = completion_context(&text, cursor);
    let expected: Vec<String> =
        (7..=20).map(|i| format!("line {}", i)).chain(["tail".to_string()]).collect();
    assert_eq!(context, expected.join("\n"));
    assert_eq!(after, "");
}

#[test]
fn context_keeps_two_hundred_characters_after_the_cursor() {
    let text = "é".repeat(500);
    let (context, after) = completion_context(&text, 100);
    assert_eq!(context.chars().count(), 100);
    assert_eq!(after.chars().count(), 200);
}

#[test]
fn context_agrees_with_the_standard_library() {
    let texts = ["", "abc", "a\nb\r\nc\n", "x\n\n\ny", "\n", "é☃\nñ"];
    for text in texts {
        for cursor in 0..12 {
            assert_eq!(completion_context(text, cursor), std_context(text, cursor), "{:?} {}", text, cursor);
        }
    }
}

#[test]
fn prompt_shows_language_file_and_cursor() {
    let prompt = completion_prompt("typescript", "src/a.ts", "const a =", ";\n");
    assert_eq!(
        prompt,
        "You are a code completion AI. Complete the typescript code at the cursor position.\n\nFile: src/a.ts\nCode:\n```typescript\nconst a =[CURSOR];\n\n```\n\nComplete ONLY what comes immediately after [CURSOR]. Output raw code only, no markdown, no explanations:"
    );
}

#[test]
fn clean_suggestion_removes_fences_and_language() {
    assert_eq!(clean_suggestion("```typescript\nfoo();\n```", "typescript"), "foo();");
    assert_eq!(clean_suggestion("  bar  ", "js"), "bar");
    assert_eq!(clean_suggestion("``````js js x``````", "js"), "js x");
    assert_eq!(clean_suggestion("```\n```", "ts"), "");
    assert_eq!(clean_suggestion("", ""), "");
}

#[test]
fn clean_suggestion_agrees_with_the_standard_library() {
    let texts = [
        "```ts\nlet a;\n```", "tsts x", " ``` ", "```", "``` ```", "x```", "ts", "  tsx  ", "```tsts```",
        "plain", "\n\n", "ts```ts", "é```",
    ];
    for text in texts {
        for language in ["ts", "", "typescript", "```", "x"] {
            assert_eq!(clean_suggestion(text, language), std_clean(text, language), "{:?} {:?}", text, language);
        }
    }
}

#[test]
fn suggestions_skip_thoughts_and_empty_parts() {
    let candidates = vec![
        vec![
            part(true, Some("thinking about it")),
            part(false, Some("```js\nfoo()\n```")),
            part(false, None),
            part(false, Some("   ")),
        ],
        vec![],
        vec![part(false, Some("bar()"))],
    ];
    assert_eq!(suggestions(&candidates, "js"), vec!["foo()".to_string(), "bar()".to_string()]);
    assert_eq!(suggestions(&vec![], "js"), Vec::<String>::new());
}

#[test]
fn answer_joins_the_parts_that_are_no_thoughts() {
    let parts = vec![
        part(true, Some("hm")),
        part(false, Some("Hello, ")),
        part(false, None),
        part(false, Some("world")),
    ];
    assert_eq!(answer(&parts), Ok("Hello, world".to_string()));
}

#[test]
fn answer_without_text_is_a_failure() {
    let message = "No se encontró contenido en la respuesta".to_string();
    assert_eq!(answer(&vec![]), Err(message.clone()));
    assert_eq!(answer(&vec![part(true, Some("only thoughts"))]), Err(message.clone()));
    assert_eq!(answer(&vec![part(false, Some(""))]), Err(message));
}
