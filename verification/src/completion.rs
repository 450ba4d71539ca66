//! What the editor asks of a remote completion model, and what it makes of
//! the answer: the context shown to the model, the prompt, the settings of a
//! request, and the suggestions or the answer read from the parts of a
//! response.
//!
//! Sending the request and reading the response as JSON are left to whoever
//! drives these functions.

use crate::text::{
    chars_of, join_lines, joined, lines, option_text, slice_of, split_lines, string_of, strip_bounds,
    strip_prefixes, strip_suffixes, trim, trim_bounds, views_of,
};
use vstd::prelude::*;

verus! {

/// The most characters after the cursor that a prompt shows.
pub const AFTER_CHARS: usize = 200;

/// The most lines before the cursor that a prompt shows.
pub const CONTEXT_LINES: usize = 15;

/// How the model is to produce its response.
#[derive(Clone, Copy, Debug, PartialEq, Eq, Structural)]
pub struct Generation {
    /// How much the model may think: -1 for as much as it sees fit, 0 for not
    /// at all.
    pub thinking_budget: i32,
    /// Whether the response includes a summary of the thoughts.
    pub include_thoughts: bool,
    /// The most tokens of the response.
    pub max_output_tokens: i32,
}

/// The settings of a request for completions: with thinking in agent mode,
/// short and without thinking otherwise.
pub fn completion_generation(agent_mode: Option<bool>) -> (g: Generation)
    ensures
        g == if agent_mode == Some(true) {
            Generation { thinking_budget: -1i32, include_thoughts: true, max_output_tokens: 512 }
        } else {
            Generation { thinking_budget: 0, include_thoughts: false, max_output_tokens: 120 }
        },
{
    match agent_mode {
        Some(true) => Generation {
            thinking_budget: -1,
            include_thoughts: true,
            max_output_tokens: 512,
        },
        _ => Generation { thinking_budget: 0, include_thoughts: false, max_output_tokens: 120 },
    }
}

/// The settings of a request for an answer to a prompt.
pub fn answer_generation(use_thinking: bool) -> (g: Generation)
    ensures
        g == if use_thinking {
            Generation { thinking_budget: -1i32, include_thoughts: true, max_output_tokens: 2048 }
        } else {
            Generation { thinking_budget: 0, include_thoughts: false, max_output_tokens: 1024 }
        },
{
    if use_thinking {
        Generation { thinking_budget: -1, include_thoughts: true, max_output_tokens: 2048 }
    } else {
        Generation { thinking_budget: 0, include_thoughts: false, max_output_tokens: 1024 }
    }
}

/// The address of a request to `model` with `api_key`.
pub open spec fn url_of(model: Seq<char>, api_key: Seq<char>) -> Seq<char> {
    "https://generativelanguage.googleapis.com/v1beta/models/"@ + model
        + ":generateContent?key="@ + api_key
}

/// The address of a request to `model` with `api_key`; `None` where there is
/// no key, and so nothing to ask.
pub fn request_url(model: &str, api_key: &str) -> (url: Option<String>)
    ensures
        option_text(url) == if api_key@.len() == 0 {
            None
        } else {
            Some(url_of(model@, api_key@))
        },
{
    if api_key.unicode_len() == 0 {
        None
    } else {
        let mut url = "https://generativelanguage.googleapis.com/v1beta/models/".to_owned();
        url.append(model);
        url.append(":generateContent?key=");
        url.append(api_key);
        Some(url)
    }
}

/// The place of the cursor in `text`: `cursor`, or the end of the text where
/// the cursor is beyond it.
pub open spec fn cursor_in(text: Seq<char>, cursor: nat) -> int {
    if cursor <= text.len() {
        cursor as int
    } else {
        text.len() as int
    }
}

/// The last `n` of `rows`, or all of them where they are fewer.
pub open spec fn last_rows(rows: Seq<Seq<char>>, n: nat) -> Seq<Seq<char>> {
    if rows.len() <= n {
        rows
    } else {
        rows.skip(rows.len() - n)
    }
}

/// What a prompt shows of the text before the cursor: its last
/// `CONTEXT_LINES` lines.
pub open spec fn context_of(text: Seq<char>, cursor: nat) -> Seq<char> {
    joined(last_rows(lines(text.take(cursor_in(text, cursor))), CONTEXT_LINES as nat))
}

/// What a prompt shows of the text after the cursor: its first `AFTER_CHARS`
/// characters.
pub open spec fn after_of(text: Seq<char>, cursor: nat) -> Seq<char> {
    let rest = text.skip(cursor_in(text, cursor));
    if rest.len() <= AFTER_CHARS {
        rest
    } else {
        rest.take(AFTER_CHARS as int)
    }
}

/// What a prompt shows of `text` around the cursor, which stands before the
/// character with index `cursor_position`: the context before it, and what
/// follows it.
pub fn completion_context(text: &str, cursor_position: usize) -> (r: (String, String))
    ensures
        r.0@ == context_of(text@, cursor_position as nat),
        r.1@ == after_of(text@, cursor_position as nat),
{
    let chars = chars_of(text);
    let at: usize = if cursor_position <= chars.len() {
        cursor_position
    } else {
        chars.len()
    };
    let before = slice_of(&chars, 0, at);
    let rows = split_lines(&before);
    let from: usize = if rows.len() <= CONTEXT_LINES {
        0
    } else {
        rows.len() - CONTEXT_LINES
    };
    assert(views_of(rows@).skip(0) == views_of(rows@));
    let context = join_lines(&rows, from);
    let end: usize = if chars.len() - at <= AFTER_CHARS {
        chars.len()
    } else {
        at + AFTER_CHARS
    };
    let after = string_of(&chars, at, end);
    (context, after)
}

/// The prompt that asks for the completion of `language` code in
/// `file_path`, with `context` before the cursor and `after` behind it.
pub open spec fn prompt_of(
    language: Seq<char>,
    file_path: Seq<char>,
    context: Seq<char>,
    after: Seq<char>,
) -> Seq<char> {
    "You are a code completion AI. Complete the "@ + language
        + " code at the cursor position.\n\nFile: "@ + file_path + "\nCode:\n```"@ + language
        + "\n"@ + context + "[CURSOR]"@ + after
        + "\n```\n\nComplete ONLY what comes immediately after [CURSOR]. Output raw code only, no markdown, no explanations:"@
}

/// The prompt that asks for the completion of `language` code in
/// `file_path`, with `context` before the cursor and `after` behind it.
pub fn completion_prompt(language: &str, file_path: &str, context: &str, after: &str) -> (prompt:
    String)
    ensures
        prompt@ == prompt_of(language@, file_path@, context@, after@),
{
    let mut prompt = "You are a code completion AI. Complete the ".to_owned();
    prompt.append(language);
    prompt.append(" code at the cursor position.\n\nFile: ");
    prompt.append(file_path);
    prompt.append("\nCode:\n```");
    prompt.append(language);
    prompt.append("\n");
    prompt.append(context);
    prompt.append("[CURSOR]");
    prompt.append(after);
    prompt.append(
        "\n```\n\nComplete ONLY what comes immediately after [CURSOR]. Output raw code only, no markdown, no explanations:",
    );
    prompt
}

/// One part of a candidate of a response.
#[derive(Debug)]
pub struct Part {
    /// Whether the part is a thought of the model rather than its answer.
    pub thought: bool,
    /// The text of the part, if it has one.
    pub text: Option<String>,
}

/// What a `Part` holds, with its text as characters.
pub struct PartView {
    pub thought: bool,
    pub text: Option<Seq<char>>,
}

impl View for Part {
    type V = PartView;

    open spec fn view(&self) -> PartView {
        PartView { thought: self.thought, text: option_text(self.text) }
    }
}

/// The views of the parts of a candidate.
pub open spec fn part_views(parts: Seq<Part>) -> Seq<PartView> {
    Seq::new(parts.len(), |i: int| parts[i]@)
}

/// The views of the parts of the candidates of a response.
pub open spec fn candidate_views(candidates: Seq<Vec<Part>>) -> Seq<Seq<PartView>> {
    Seq::new(candidates.len(), |i: int| part_views(candidates[i]@))
}

/// The text of a part without what a model puts around code: the whitespace
/// around it, the code fences at its start and the name of the language
/// behind them, the code fences at its end, and the whitespace that is then
/// around it.
pub open spec fn cleaned(text: Seq<char>, language: Seq<char>) -> Seq<char> {
    trim(
        strip_suffixes(
            strip_prefixes(strip_prefixes(trim(text), "```"@), language),
            "```"@,
        ),
    )
}

/// The text of a part without what a model puts around code.
pub fn clean_suggestion(text: &str, language: &str) -> (s: String)
    ensures
        s@ == cleaned(text@, language@),
{
    let chars = chars_of(text);
    let fence = chars_of("```");
    let name = chars_of(language);
    let none: Vec<char> = Vec::new();
    let (a, b) = trim_bounds(&chars);
    let (c, d) = strip_bounds(&chars, a, b, &fence, &none);
    let (e, f) = strip_bounds(&chars, c, d, &name, &none);
    let (g, h) = strip_bounds(&chars, e, f, &none, &fence);
    let inner = slice_of(&chars, g, h);
    let (i, j) = trim_bounds(&inner);
    string_of(&inner, i, j)
}

/// The suggestion that a part makes: its cleaned text, unless the part is a
/// thought, has no text, or has nothing left when cleaned.
pub open spec fn suggestion_of(part: PartView, language: Seq<char>) -> Option<Seq<char>> {
    match part.text {
        Some(text) => if !part.thought && cleaned(text, language).len() > 0 {
            Some(cleaned(text, language))
        } else {
            None
        },
        None => None,
    }
}

/// The suggestions of the parts of one candidate, in their order.
pub open spec fn suggestions_of(parts: Seq<PartView>, language: Seq<char>) -> Seq<Seq<char>>
    decreases parts.len(),
{
    if parts.len() == 0 {
        Seq::empty()
    } else {
        let before = suggestions_of(parts.drop_last(), language);
        match suggestion_of(parts.last(), language) {
            Some(s) => before.push(s),
            None => before,
        }
    }
}

/// The suggestions of all candidates of a response, candidate by candidate.
pub open spec fn suggestions_in(candidates: Seq<Seq<PartView>>, language: Seq<char>) -> Seq<
    Seq<char>,
>
    decreases candidates.len(),
{
    if candidates.len() == 0 {
        Seq::empty()
    } else {
        suggestions_in(candidates.drop_last(), language) + suggestions_of(
            candidates.last(),
            language,
        )
    }
}

/// The characters of each string of a list.
pub open spec fn texts(strings: Seq<String>) -> Seq<Seq<char>> {
    Seq::new(strings.len(), |i: int| strings[i]@)
}

/// The suggestions of all candidates of a response, candidate by candidate.
/// A candidate without parts is given as an empty list.
pub fn suggestions(candidates: &Vec<Vec<Part>>, language: &str) -> (found: Vec<String>)
    ensures
        texts(found@) == suggestions_in(candidate_views(candidates@), language@),
{
    let mut found: Vec<String> = Vec::new();
    let ghost all = candidate_views(candidates@);
    let mut c: usize = 0;
    while c < candidates.len()
        invariant
            c <= candidates.len(),
            all == candidate_views(candidates@),
            texts(found@) == suggestions_in(all.take(c as int), language@),
        decreases candidates.len() - c,
    {
        let parts = &candidates[c];
        let ghost views = part_views(parts@);
        let ghost start = texts(found@);
        let mut p: usize = 0;
        while p < parts.len()
            invariant
                p <= parts.len(),
                views == part_views(parts@),
                texts(found@) == start + suggestions_of(views.take(p as int), language@),
            decreases parts.len() - p,
        {
            let part = &parts[p];
            let ghost sofar = suggestions_of(views.take(p as int), language@);
            proof {
                assert(views.take(p + 1).drop_last() == views.take(p as int));
            }
            match &part.text {
                Some(text) => {
                    if !part.thought {
                        let clean = clean_suggestion(text.as_str(), language);
                        if clean.as_str().unicode_len() > 0 {
                            found.push(clean);
                            proof {
                                assert((start + sofar).push(clean@) == start + sofar.push(clean@));
                            }
                        }
                    }
                },
                None => {},
            }
            p += 1;
        }
        proof {
            assert(views.take(parts@.len() as int) == views);
            assert(all.take(c + 1).drop_last() == all.take(c as int));
        }
        c += 1;
    }
    assert(all.take(candidates@.len() as int) == all);
    found
}

/// The texts of the parts that are no thoughts, one after the other.
pub open spec fn answer_text(parts: Seq<PartView>) -> Seq<char>
    decreases parts.len(),
{
    if parts.len() == 0 {
        Seq::empty()
    } else {
        let before = answer_text(parts.drop_last());
        match parts.last().text {
            Some(text) => if parts.last().thought {
                before
            } else {
                before + text
            },
            None => before,
        }
    }
}

/// The answer of a response whose first candidate has these parts: the texts
/// of the parts that are no thoughts, one after the other. A response
/// without such text is a failure. A response without a first candidate, or
/// one without parts, is given as an empty list.
pub fn answer(parts: &Vec<Part>) -> (r: Result<String, String>)
    ensures
        match r {
            Ok(text) => text@ == answer_text(part_views(parts@)) && text@.len() > 0,
            Err(message) => answer_text(part_views(parts@)).len() == 0 && message@
                == "No se encontró contenido en la respuesta"@,
        },
{
    let mut text = String::new();
    let ghost views = part_views(parts@);
    let mut p: usize = 0;
    while p < parts.len()
        invariant
            p <= parts.len(),
            views == part_views(parts@),
            text@ == answer_text(views.take(p as int)),
        decreases parts.len() - p,
    {
        let part = &parts[p];
        proof {
            assert(views.take(p + 1).drop_last() == views.take(p as int));
        }
        if !part.thought {
            match &part.text {
                Some(piece) => {
                    text.append(piece.as_str());
                },
                None => {},
            }
        }
        p += 1;
    }
    assert(views.take(parts@.len() as int) == views);
    if text.as_str().unicode_len() > 0 {
        Ok(text)
    } else {
        Err("No se encontró contenido en la respuesta".to_owned())
    }
}

} // verus!
