//! The sanity gate of compaction summaries: a text that is no summary must not
//! take the place of a conversation.
use vstd::prelude::*;

use crate::message::{Message, MessageView};
use crate::text::{
    chars_of, contains, decimal, decimal_text, has_prefix, lower, lowered, occurs_at, occurs_in,
    stands_at, starts_with, text_of, trim, trimmed,
};

verus! {

/// A summary has at least this many characters.
pub const SUMMARY_MIN_CHARS: usize = 80;

/// How much of the beginning of a message an echo is looked for by.
pub const PROBE_CHARS: usize = 200;

/// A run of hexadecimal digits of this length may be a commit hash.
pub const HASH_MIN_CHARS: usize = 7;

/// What tool calls look like when they are written out as text, in lower case.
pub open spec fn markup_markers() -> Seq<Seq<char>> {
    seq![
        "<invoke"@,
        "</invoke"@,
        "<parameter"@,
        "</parameter"@,
        "<function_call"@,
        "</function_call"@,
        "<tool_call"@,
        "</tool_call"@,
        "<｜dsml｜"@,
        "<|dsml|"@,
    ]
}

/// What a text says that speaks of the summary in place of giving it, in lower
/// case. A phrase stands in front of those that it holds.
pub open spec fn stub_phrases() -> Seq<Seq<char>> {
    seq![
        "this is a compaction request"@,
        "this is a compact"@,
        "triggered by the system prompt"@,
        "i need to generate a complete"@,
        "let me organize"@,
        "here is a summary"@,
        "i will summarize"@,
        "这是一个 compaction 请求"@,
        "系统提示触发的摘要生成"@,
        "我需要生成一份完整的会话摘要"@,
        "生成一份完整的会话摘要"@,
        "让我按时间线整理"@,
    ]
}

/// What a text says that tells of work, in lower case.
pub open spec fn content_words() -> Seq<Seq<char>> {
    seq![
        "fixed"@,
        "decided"@,
        "decision"@,
        "files:"@,
        "implemented"@,
        "verified"@,
        "unfinished"@,
        "修复"@,
        "决策"@,
        "改动"@,
        "未完成"@,
        "验证"@,
    ]
}

/// Whether one of the needles stands in a text.
pub open spec fn any_in(text: Seq<char>, needles: Seq<Seq<char>>) -> bool {
    exists|i: int| 0 <= i < needles.len() && occurs_in(text, #[trigger] needles[i])
}

/// Characters that make up a stretch of text.
#[derive(Clone, Copy, Debug, PartialEq, Eq, Structural)]
pub enum CharClass {
    /// Letters, digits, `_` and `-`.
    Name,
    /// Hexadecimal digits in lower case.
    Hex,
}

/// An ASCII digit.
pub open spec fn is_digit(c: char) -> bool {
    '0' <= c <= '9'
}

/// An ASCII letter or digit, in lower case.
pub open spec fn is_plain_char(c: char) -> bool {
    is_digit(c) || 'a' <= c <= 'z'
}

/// Whether a character belongs to a class.
pub open spec fn in_class(c: char, class: CharClass) -> bool {
    match class {
        CharClass::Name => is_plain_char(c) || c == '_' || c == '-',
        CharClass::Hex => is_digit(c) || 'a' <= c <= 'f',
    }
}

/// Where the stretch of a class that begins at `from` ends.
pub open spec fn run_end(text: Seq<char>, from: int, class: CharClass) -> int
    decreases text.len() - from,
{
    if 0 <= from < text.len() && in_class(text[from], class) {
        run_end(text, from + 1, class)
    } else {
        from
    }
}

/// Whether a `/` stands at `at` between a name and the name of a file with an
/// extension.
pub open spec fn path_at(text: Seq<char>, at: int) -> bool {
    let end = run_end(text, at + 1, CharClass::Name);
    &&& 0 < at < text.len()
    &&& text[at] == '/'
    &&& in_class(text[at - 1], CharClass::Name)
    &&& at + 1 < end
    &&& end + 1 < text.len()
    &&& text[end] == '.'
    &&& is_plain_char(text[end + 1])
}

/// Whether a commit hash stands at `at`: a whole run of hexadecimal digits that
/// is long enough and no mere number.
pub open spec fn hash_at(text: Seq<char>, at: int) -> bool {
    let end = run_end(text, at, CharClass::Hex);
    &&& 0 <= at < text.len()
    &&& at == 0 || !is_plain_char(text[at - 1])
    &&& end - at >= HASH_MIN_CHARS
    &&& end < text.len() ==> !is_plain_char(text[end])
    &&& exists|k: int| at <= k < end && !is_digit(#[trigger] text[k])
}

/// Whether a text, in lower case, holds something concrete: the path of a file, a
/// commit hash, or a word that tells of work.
pub open spec fn has_content(text: Seq<char>) -> bool {
    ||| any_in(text, content_words())
    ||| exists|at: int| path_at(text, at)
    ||| exists|at: int| hash_at(text, at)
}

/// The length of the first phrase of a list that stands at `at`; 0 without one.
pub open spec fn phrase_len(text: Seq<char>, phrases: Seq<Seq<char>>, at: int) -> nat
    decreases phrases.len(),
{
    if phrases.len() == 0 {
        0
    } else if occurs_at(text, phrases[0], at) {
        phrases[0].len()
    } else {
        phrase_len(text, phrases.drop_first(), at)
    }
}

/// How many phrases stand in a text from `from` on, one behind the other.
pub open spec fn phrase_count(text: Seq<char>, from: int) -> nat
    decreases text.len() - from,
{
    if from >= text.len() {
        0
    } else {
        let n = phrase_len(text, stub_phrases(), from);
        if 0 < n <= text.len() - from {
            1 + phrase_count(text, from + n)
        } else {
            phrase_count(text, from + 1)
        }
    }
}

/// The text of a message.
pub open spec fn said(message: MessageView) -> Seq<char> {
    match message {
        MessageView::System { content } => content,
        MessageView::User { content, .. } => content,
        MessageView::Assistant(assistant) => match assistant.content {
            Some(content) => content,
            None => Seq::empty(),
        },
        MessageView::Tool { content, .. } => content,
    }
}

/// The beginning of a message by which an echo is looked for.
pub open spec fn probe_of(message: Seq<char>) -> Seq<char> {
    let text = trimmed(message);
    if text.len() > PROBE_CHARS {
        text.take(PROBE_CHARS as int)
    } else {
        text
    }
}

/// Whether a summary repeats a message: it begins with it, or the repetition is
/// more than half of it.
pub open spec fn echoes(summary: Seq<char>, message: Seq<char>) -> bool {
    let probe = probe_of(message);
    probe.len() > 0 && (has_prefix(summary, probe) || (occurs_in(summary, probe) && summary.len()
        < 2 * probe.len()))
}

/// What is wrong with a summary.
#[derive(Clone, Copy, Debug, PartialEq, Eq, Structural)]
pub enum Flaw {
    /// It holds tool calls written out as text.
    Markup,
    /// It has only so many characters.
    Short { chars: usize },
    /// It repeats the beginning of what is retained.
    EchoesRetained,
    /// It repeats the end of what is summarised.
    EchoesRequest,
    /// It speaks of the summary in place of giving it.
    Stub,
    /// It speaks of the summary and holds nothing concrete.
    Hollow,
}

/// What is wrong with a summary, in words.
pub open spec fn flaw_words(flaw: Flaw) -> Seq<char> {
    match flaw {
        Flaw::Markup => "contains tool-call/DSML markup"@,
        Flaw::Short { chars } => "too short ("@ + decimal(chars as nat) + " characters)"@,
        Flaw::EchoesRetained => "echoes the retained context"@,
        Flaw::EchoesRequest => "echoes the end of the compacted context"@,
        Flaw::Stub => "metadiscourse stub"@,
        Flaw::Hollow => "metadiscourse stub that lacks content signals"@,
    }
}

/// What is wrong with a summary, in words.
pub fn flaw_text(flaw: Flaw) -> (r: String)
    ensures
        r@ == flaw_words(flaw),
{
    match flaw {
        Flaw::Markup => "contains tool-call/DSML markup".to_owned(),
        Flaw::Short { chars } => {
            let mut text = "too short (".to_owned();
            text.push_str(decimal_text(chars as u64).as_str());
            text.push_str(" characters)");
            text
        },
        Flaw::EchoesRetained => "echoes the retained context".to_owned(),
        Flaw::EchoesRequest => "echoes the end of the compacted context".to_owned(),
        Flaw::Stub => "metadiscourse stub".to_owned(),
        Flaw::Hollow => "metadiscourse stub that lacks content signals".to_owned(),
    }
}

/// The error of a summary that was rejected for good.
pub open spec fn gate_words(flaw: Flaw) -> Seq<char> {
    "compaction summary rejected by sanity gate: "@ + flaw_words(flaw)
}

/// The error of a summary that was rejected for good.
pub fn gate_error(flaw: Flaw) -> (r: String)
    ensures
        r@ == gate_words(flaw),
{
    let mut error = "compaction summary rejected by sanity gate: ".to_owned();
    error.push_str(flaw_text(flaw).as_str());
    error
}

/// What is wrong with a summary, if anything. `retained` is what stays beside it,
/// and `request` what the model was sent, with the request for the summary last.
/// One telling phrase is tolerated beside something concrete; two are not.
pub open spec fn flaw_of(
    summary: Seq<char>,
    retained: Seq<MessageView>,
    request: Seq<MessageView>,
) -> Option<Flaw> {
    let text = trimmed(summary);
    let plain = lowered(text);
    if any_in(plain, markup_markers()) {
        Some(Flaw::Markup)
    } else if text.len() < SUMMARY_MIN_CHARS {
        Some(Flaw::Short { chars: text.len() as usize })
    } else if retained.len() > 0 && echoes(text, said(retained[0])) {
        Some(Flaw::EchoesRetained)
    } else if request.len() > 1 && echoes(text, said(request[request.len() - 2])) {
        Some(Flaw::EchoesRequest)
    } else if phrase_count(plain, 0) > 1 {
        Some(Flaw::Stub)
    } else if phrase_count(plain, 0) == 1 && !has_content(plain) {
        Some(Flaw::Hollow)
    } else {
        None
    }
}

fn marker_list() -> (r: Vec<String>)
    ensures
        r.deep_view() == markup_markers(),
{
    let list = vec![
        "<invoke".to_owned(),
        "</invoke".to_owned(),
        "<parameter".to_owned(),
        "</parameter".to_owned(),
        "<function_call".to_owned(),
        "</function_call".to_owned(),
        "<tool_call".to_owned(),
        "</tool_call".to_owned(),
        "<｜dsml｜".to_owned(),
        "<|dsml|".to_owned(),
    ];
    assert(list.deep_view() =~= markup_markers());
    list
}

fn phrase_list() -> (r: Vec<String>)
    ensures
        r.deep_view() == stub_phrases(),
{
    let list = vec![
        "this is a compaction request".to_owned(),
        "this is a compact".to_owned(),
        "triggered by the system prompt".to_owned(),
        "i need to generate a complete".to_owned(),
        "let me organize".to_owned(),
        "here is a summary".to_owned(),
        "i will summarize".to_owned(),
        "这是一个 compaction 请求".to_owned(),
        "系统提示触发的摘要生成".to_owned(),
        "我需要生成一份完整的会话摘要".to_owned(),
        "生成一份完整的会话摘要".to_owned(),
        "让我按时间线整理".to_owned(),
    ];
    assert(list.deep_view() =~= stub_phrases());
    list
}

fn word_list() -> (r: Vec<String>)
    ensures
        r.deep_view() == content_words(),
{
    let list = vec![
        "fixed".to_owned(),
        "decided".to_owned(),
        "decision".to_owned(),
        "files:".to_owned(),
        "implemented".to_owned(),
        "verified".to_owned(),
        "unfinished".to_owned(),
        "修复".to_owned(),
        "决策".to_owned(),
        "改动".to_owned(),
        "未完成".to_owned(),
        "验证".to_owned(),
    ];
    assert(list.deep_view() =~= content_words());
    list
}

/// Whether one of the needles stands in a text.
fn holds_any(text: &str, needles: &Vec<String>) -> (r: bool)
    ensures
        r == any_in(text@, needles.deep_view()),
{
    let ghost views = needles.deep_view();
    let mut i: usize = 0;
    while i < needles.len()
        invariant
            i <= needles.len(),
            views == needles.deep_view(),
            forall|j: int| 0 <= j < i ==> !occurs_in(text@, #[trigger] views[j]),
        decreases needles.len() - i,
    {
        assert(views[i as int] == needles@[i as int]@);
        if contains(text, needles[i].as_str()) {
            return true;
        }
        i += 1;
    }
    assert(views.len() == needles@.len());
    false
}

fn is_digit_char(c: char) -> (r: bool)
    ensures
        r == is_digit(c),
{
    '0' <= c && c <= '9'
}

fn is_plain(c: char) -> (r: bool)
    ensures
        r == is_plain_char(c),
{
    is_digit_char(c) || ('a' <= c && c <= 'z')
}

fn belongs(c: char, class: CharClass) -> (r: bool)
    ensures
        r == in_class(c, class),
{
    match class {
        CharClass::Name => is_plain(c) || c == '_' || c == '-',
        CharClass::Hex => is_digit_char(c) || ('a' <= c && c <= 'f'),
    }
}

/// Where the stretch of a class that begins at `from` ends.
fn end_of_run(chars: &Vec<char>, from: usize, class: CharClass) -> (r: usize)
    requires
        from <= chars@.len(),
    ensures
        r == run_end(chars@, from as int, class),
        from <= r <= chars@.len(),
{
    let mut end: usize = from;
    while end < chars.len() && belongs(chars[end], class)
        invariant
            from <= end <= chars@.len(),
            run_end(chars@, from as int, class) == run_end(chars@, end as int, class),
        decreases chars@.len() - end,
    {
        end += 1;
    }
    end
}

fn is_path_at(chars: &Vec<char>, at: usize) -> (r: bool)
    requires
        at < chars@.len(),
    ensures
        r == path_at(chars@, at as int),
{
    let total: usize = chars.len();
    if at == 0 || chars[at] != '/' || !belongs(chars[at - 1], CharClass::Name) {
        return false;
    }
    let end: usize = end_of_run(chars, at + 1, CharClass::Name);
    at + 1 < end && end < total - 1 && chars[end] == '.' && is_plain(chars[end + 1])
}

fn is_hash_at(chars: &Vec<char>, at: usize) -> (r: bool)
    requires
        at < chars@.len(),
    ensures
        r == hash_at(chars@, at as int),
{
    let end: usize = end_of_run(chars, at, CharClass::Hex);
    if (at > 0 && is_plain(chars[at - 1])) || end - at < HASH_MIN_CHARS {
        return false;
    }
    if end < chars.len() && is_plain(chars[end]) {
        return false;
    }
    let mut k: usize = at;
    while k < end
        invariant
            at <= k <= end <= chars@.len(),
            end == run_end(chars@, at as int, CharClass::Hex),
            end - at >= HASH_MIN_CHARS,
            at == 0 || !is_plain_char(chars@[at - 1]),
            end < chars@.len() ==> !is_plain_char(chars@[end as int]),
            forall|j: int| at <= j < k ==> is_digit(#[trigger] chars@[j]),
        decreases end - k,
    {
        if !is_digit_char(chars[k]) {
            assert(!is_digit(chars@[k as int]));
            return true;
        }
        k += 1;
    }
    false
}

/// Whether a text, in lower case, holds something concrete.
fn holds_content(text: &str) -> (r: bool)
    ensures
        r == has_content(text@),
{
    if holds_any(text, &word_list()) {
        return true;
    }
    let chars = chars_of(text);
    let mut i: usize = 0;
    while i < chars.len()
        invariant
            i <= chars.len(),
            chars@ == text@,
            !any_in(text@, content_words()),
            forall|j: int| 0 <= j < i ==> !(#[trigger] path_at(text@, j)),
            forall|j: int| 0 <= j < i ==> !(#[trigger] hash_at(text@, j)),
        decreases chars.len() - i,
    {
        if is_path_at(&chars, i) || is_hash_at(&chars, i) {
            return true;
        }
        i += 1;
    }
    false
}

/// The length of the first phrase of the list that stands at `at`.
fn phrase_at(chars: &Vec<char>, phrases: &Vec<String>, at: usize) -> (r: usize)
    requires
        at < chars@.len(),
    ensures
        r == phrase_len(chars@, phrases.deep_view(), at as int),
        at + r <= chars@.len(),
{
    let ghost views = phrases.deep_view();
    let mut i: usize = 0;
    assert(views.skip(0) =~= views);
    while i < phrases.len()
        invariant
            i <= phrases.len(),
            at < chars@.len(),
            views == phrases.deep_view(),
            phrase_len(chars@, views, at as int) == phrase_len(
                chars@,
                views.skip(i as int),
                at as int,
            ),
        decreases phrases.len() - i,
    {
        proof {
            assert(views.len() == phrases@.len());
            assert(views.skip(i as int)[0] == phrases@[i as int]@);
            assert(views.skip(i as int).drop_first() =~= views.skip(i + 1));
        }
        let phrase = chars_of(phrases[i].as_str());
        if phrase.len() <= chars.len() - at {
            if stands_at(chars, &phrase, at) {
                return phrase.len();
            }
        }
        i += 1;
    }
    assert(views.len() == phrases@.len());
    0
}

/// How many phrases stand in a text, one behind the other.
fn count_phrases(text: &str) -> (r: usize)
    ensures
        r == phrase_count(text@, 0),
{
    let chars = chars_of(text);
    let phrases = phrase_list();
    let mut count: usize = 0;
    let mut i: usize = 0;
    while i < chars.len()
        invariant
            count <= i <= chars.len(),
            chars@ == text@,
            phrases.deep_view() == stub_phrases(),
            phrase_count(text@, 0) == count + phrase_count(text@, i as int),
        decreases chars.len() - i,
    {
        let n: usize = phrase_at(&chars, &phrases, i);
        if n > 0 {
            count += 1;
            i += n;
        } else {
            i += 1;
        }
    }
    count
}

/// The text of a message.
fn text_said(message: &Message) -> (r: String)
    ensures
        r@ == said(message.deep_view()),
{
    match message {
        Message::System { content } => content.clone(),
        Message::User { content, .. } => content.clone(),
        Message::Assistant(assistant) => match &assistant.content {
            Some(content) => content.clone(),
            None => String::new(),
        },
        Message::Tool { content, .. } => content.clone(),
    }
}

/// Whether a summary repeats a message.
fn repeats(summary: &str, message: &Message) -> (r: bool)
    ensures
        r == echoes(summary@, said(message.deep_view())),
{
    let text = trim(text_said(message).as_str());
    let chars = chars_of(text.as_str());
    let length: usize = if chars.len() > PROBE_CHARS {
        PROBE_CHARS
    } else {
        chars.len()
    };
    let probe = text_of(&chars, 0, length);
    assert(probe@ =~= probe_of(said(message.deep_view())));
    let total: usize = chars_of(summary).len();
    length > 0 && (starts_with(summary, probe.as_str()) || (contains(summary, probe.as_str())
        && total < 2 * length))
}

/// What is wrong with a summary, if anything.
pub fn summary_flaw(summary: &str, retained: &Vec<Message>, request: &Vec<Message>) -> (r: Option<
    Flaw,
>)
    ensures
        r == flaw_of(summary@, retained.deep_view(), request.deep_view()),
{
    let text = trim(summary);
    let plain = lower(text.as_str());
    if holds_any(plain.as_str(), &marker_list()) {
        return Some(Flaw::Markup);
    }
    let chars: usize = chars_of(text.as_str()).len();
    if chars < SUMMARY_MIN_CHARS {
        return Some(Flaw::Short { chars });
    }
    assert(retained.deep_view().len() == retained@.len());
    assert(request.deep_view().len() == request@.len());
    if retained.len() > 0 {
        assert(retained.deep_view()[0] == retained@[0].deep_view());
        if repeats(text.as_str(), &retained[0]) {
            return Some(Flaw::EchoesRetained);
        }
    }
    if request.len() > 1 {
        let last: usize = request.len() - 2;
        assert(request.deep_view()[last as int] == request@[last as int].deep_view());
        if repeats(text.as_str(), &request[last]) {
            return Some(Flaw::EchoesRequest);
        }
    }
    let phrases: usize = count_phrases(plain.as_str());
    if phrases > 1 {
        Some(Flaw::Stub)
    } else if phrases == 1 && !holds_content(plain.as_str()) {
        Some(Flaw::Hollow)
    } else {
        None
    }
}

/// A summary without a flaw is a text of some length that is neither markup nor a
/// repetition of what is retained.
pub proof fn accepted_summaries_are_substantial(
    summary: Seq<char>,
    retained: Seq<MessageView>,
    request: Seq<MessageView>,
)
    requires
        flaw_of(summary, retained, request) is None,
    ensures
        trimmed(summary).len() >= SUMMARY_MIN_CHARS,
        !any_in(lowered(trimmed(summary)), markup_markers()),
        retained.len() > 0 ==> trimmed(summary) != trimmed(said(retained[0])),
        phrase_count(lowered(trimmed(summary)), 0) <= 1,
{
    let text = trimmed(summary);
    if retained.len() > 0 && text == trimmed(said(retained[0])) {
        let probe = probe_of(said(retained[0]));
        assert(text.take(probe.len() as int) =~= probe);
    }
}

/// A summary is rejected for its length exactly where it has fewer than eighty
/// characters, white space around it aside, and holds no markup; the reason says
/// how many it has.
pub proof fn short_summaries_are_rejected(
    summary: Seq<char>,
    retained: Seq<MessageView>,
    request: Seq<MessageView>,
)
    requires
        trimmed(summary).len() <= usize::MAX,
    ensures
        trimmed(summary).len() < 80 ==> flaw_of(summary, retained, request) is Some,
        flaw_of(summary, retained, request) matches Some(Flaw::Short { chars }) ==> chars
            == trimmed(summary).len() && chars < 80,
        trimmed(summary).len() < 80 && !any_in(lowered(trimmed(summary)), markup_markers())
            ==> flaw_of(summary, retained, request) == Some(
            Flaw::Short { chars: trimmed(summary).len() as usize },
        ),
{
}

/// A summary with a tool call written out in it is rejected as markup, whatever
/// else it says.
pub proof fn markup_is_rejected(
    summary: Seq<char>,
    retained: Seq<MessageView>,
    request: Seq<MessageView>,
)
    ensures
        ({
            let plain = lowered(trimmed(summary));
            occurs_in(plain, "<invoke"@) || occurs_in(plain, "<parameter"@) || occurs_in(
                plain,
                "<function_call"@,
            ) || occurs_in(plain, "<tool_call"@) || occurs_in(plain, "</invoke"@) || occurs_in(
                plain,
                "</parameter"@,
            )
        }) ==> flaw_of(summary, retained, request) == Some(Flaw::Markup),
{
    let markers = markup_markers();
    assert(markers[0] == "<invoke"@ && markers[1] == "</invoke"@ && markers[2] == "<parameter"@
        && markers[3] == "</parameter"@ && markers[4] == "<function_call"@ && markers[6]
        == "<tool_call"@);
}

/// A summary that begins with what is retained, or with the last message that was
/// to be summarised, is rejected; so is one that is mostly made of it.
pub proof fn echoes_are_rejected(
    summary: Seq<char>,
    retained: Seq<MessageView>,
    request: Seq<MessageView>,
    message: MessageView,
)
    requires
        (retained.len() > 0 && retained[0] == message) || (request.len() > 1
            && request[request.len() - 2] == message),
        message is User || message is Tool || message is System || (
        message matches MessageView::Assistant(assistant) && assistant.content is Some),
    ensures
        ({
            let text = trimmed(summary);
            let words = trimmed(
                match message {
                    MessageView::System { content } => content,
                    MessageView::User { content, .. } => content,
                    MessageView::Assistant(assistant) => assistant.content->0,
                    MessageView::Tool { content, .. } => content,
                },
            );
            let probe = words.take(
                if words.len() > 200 {
                    200
                } else {
                    words.len() as int
                },
            );
            words.len() > 0 && (has_prefix(text, probe) || (occurs_in(text, probe) && text.len() < 2
                * probe.len()))
        }) ==> flaw_of(summary, retained, request) is Some,
{
    let words = trimmed(said(message));
    assert(words.take(words.len() as int) =~= words);
}

/// A summary is accepted where it is long enough and holds no markup, no telling
/// phrase, and nothing of the messages that it could repeat.
pub proof fn plain_summaries_are_accepted(
    summary: Seq<char>,
    retained: Seq<MessageView>,
    request: Seq<MessageView>,
)
    requires
        trimmed(summary).len() >= 80,
        forall|i: int|
            0 <= i < markup_markers().len() ==> !occurs_in(
                lowered(trimmed(summary)),
                #[trigger] markup_markers()[i],
            ),
        retained.len() > 0 ==> !echoes(trimmed(summary), said(retained[0])),
        request.len() > 1 ==> !echoes(trimmed(summary), said(request[request.len() - 2])),
        phrase_count(lowered(trimmed(summary)), 0) == 0 || (phrase_count(
            lowered(trimmed(summary)),
            0,
        ) == 1 && has_content(lowered(trimmed(summary)))),
    ensures
        flaw_of(summary, retained, request) is None,
{
}

/// A rejection names the rejection itself and what is wrong.
pub proof fn rejections_name_their_reason(chars: usize)
    ensures
        gate_words(Flaw::Markup)
            == "compaction summary rejected by sanity gate: "@ + "contains tool-call/DSML markup"@,
        gate_words(Flaw::Short { chars }) == "compaction summary rejected by sanity gate: "@ + (
        "too short ("@ + decimal(chars as nat) + " characters)"@),
        gate_words(Flaw::EchoesRetained)
            == "compaction summary rejected by sanity gate: "@ + "echoes the retained context"@,
        gate_words(Flaw::EchoesRequest) == "compaction summary rejected by sanity gate: "@
            + "echoes the end of the compacted context"@,
        gate_words(Flaw::Stub)
            == "compaction summary rejected by sanity gate: "@ + "metadiscourse stub"@,
        gate_words(Flaw::Hollow) == "compaction summary rejected by sanity gate: "@
            + "metadiscourse stub that lacks content signals"@,
{
}

proof fn lemma_phrase_len(text: Seq<char>, phrases: Seq<Seq<char>>, at: int)
    requires
        forall|i: int| 0 <= i < phrases.len() ==> (#[trigger] phrases[i]).len() > 0,
    ensures
        phrase_len(text, phrases, at) > 0 <==> exists|i: int|
            0 <= i < phrases.len() && occurs_at(text, #[trigger] phrases[i], at),
        phrase_len(text, phrases, at) > 0 ==> at + phrase_len(text, phrases, at) <= text.len(),
    decreases phrases.len(),
{
    if phrases.len() > 0 {
        let rest = phrases.drop_first();
        assert(phrases[0].len() > 0);
        assert forall|i: int| 0 <= i < rest.len() implies (#[trigger] rest[i]).len() > 0 by {
            assert(rest[i] == phrases[i + 1]);
        }
        lemma_phrase_len(text, rest, at);
        if exists|i: int| 0 <= i < phrases.len() && occurs_at(text, #[trigger] phrases[i], at) {
            let i = choose|i: int|
                0 <= i < phrases.len() && occurs_at(text, #[trigger] phrases[i], at);
            if i > 0 {
                assert(rest[i - 1] == phrases[i]);
            }
        }
        if exists|i: int| 0 <= i < rest.len() && occurs_at(text, #[trigger] rest[i], at) {
            let i = choose|i: int| 0 <= i < rest.len() && occurs_at(text, #[trigger] rest[i], at);
            assert(phrases[i + 1] == rest[i]);
        }
    }
}

proof fn lemma_phrases_say_something()
    ensures
        forall|i: int| 0 <= i < stub_phrases().len() ==> (#[trigger] stub_phrases()[i]).len() > 0,
{
    reveal_strlit("this is a compaction request");
    reveal_strlit("this is a compact");
    reveal_strlit("triggered by the system prompt");
    reveal_strlit("i need to generate a complete");
    reveal_strlit("let me organize");
    reveal_strlit("here is a summary");
    reveal_strlit("i will summarize");
    reveal_strlit("这是一个 compaction 请求");
    reveal_strlit("系统提示触发的摘要生成");
    reveal_strlit("我需要生成一份完整的会话摘要");
    reveal_strlit("生成一份完整的会话摘要");
    reveal_strlit("让我按时间线整理");
}

proof fn lemma_phrase_count(text: Seq<char>, from: int)
    requires
        0 <= from,
    ensures
        phrase_count(text, from) > 0 <==> exists|at: int, i: int|
            from <= at && 0 <= i < stub_phrases().len() && #[trigger] occurs_at(
                text,
                stub_phrases()[i],
                at,
            ),
    decreases text.len() - from,
{
    lemma_phrases_say_something();
    let phrases = stub_phrases();
    if from < text.len() {
        lemma_phrase_len(text, phrases, from);
        let n = phrase_len(text, phrases, from);
        if n > 0 {
            let i = choose|i: int|
                0 <= i < phrases.len() && occurs_at(text, #[trigger] phrases[i], from);
            assert(occurs_at(text, stub_phrases()[i], from));
        } else {
            lemma_phrase_count(text, from + 1);
            if exists|at: int, i: int|
                from <= at && 0 <= i < phrases.len() && #[trigger] occurs_at(
                    text,
                    phrases[i],
                    at,
                ) {
                let (at, i) = choose|at: int, i: int|
                    from <= at && 0 <= i < phrases.len() && #[trigger] occurs_at(
                        text,
                        phrases[i],
                        at,
                    );
                assert(at != from);
            }
        }
    }
}

/// A text is counted as speaking of the summary exactly where one of the phrases
/// stands in it.
pub proof fn phrases_are_counted_where_they_stand(text: Seq<char>)
    ensures
        phrase_count(text, 0) > 0 <==> exists|i: int|
            0 <= i < stub_phrases().len() && occurs_in(text, #[trigger] stub_phrases()[i]),
{
    lemma_phrase_count(text, 0);
    if exists|i: int|
        0 <= i < stub_phrases().len() && occurs_in(text, #[trigger] stub_phrases()[i]) {
        let i = choose|i: int|
            0 <= i < stub_phrases().len() && occurs_in(text, #[trigger] stub_phrases()[i]);
        let at = choose|at: int| occurs_at(text, stub_phrases()[i], at);
        assert(occurs_at(text, stub_phrases()[i], at));
    }
    if phrase_count(text, 0) > 0 {
        let (at, i) = choose|at: int, i: int|
            0 <= at && 0 <= i < stub_phrases().len() && #[trigger] occurs_at(
                text,
                stub_phrases()[i],
                at,
            );
        assert(occurs_in(text, stub_phrases()[i]));
    }
}

proof fn lemma_run_end(text: Seq<char>, from: int, end: int, class: CharClass)
    requires
        0 <= from <= end <= text.len(),
        forall|k: int| from <= k < end ==> in_class(#[trigger] text[k], class),
        end < text.len() ==> !in_class(text[end], class),
    ensures
        run_end(text, from, class) == end,
    decreases end - from,
{
    if from < end {
        lemma_run_end(text, from + 1, end, class);
    }
}

/// A run of at least seven hexadecimal digits that is set apart from other letters
/// and digits, and is no mere number, is something concrete: a commit hash.
pub proof fn hashes_are_something_concrete(
    before: Seq<char>,
    hash: Seq<char>,
    after: Seq<char>,
    letter: int,
)
    requires
        hash.len() >= 7,
        forall|k: int|
            0 <= k < hash.len() ==> ('0' <= #[trigger] hash[k] && hash[k] <= '9') || ('a' <= hash[k]
                && hash[k] <= 'f'),
        0 <= letter < hash.len() && 'a' <= hash[letter],
        before.len() > 0 ==> before.last() == ' ',
        after.len() > 0 ==> after[0] == ' ',
    ensures
        has_content(before + hash + after),
{
    let text = before + hash + after;
    let at = before.len() as int;
    let end = at + hash.len();
    assert forall|k: int| at <= k < end implies in_class(#[trigger] text[k], CharClass::Hex) by {
        assert(text[k] == hash[k - at]);
    }
    if end < text.len() {
        assert(text[end] == after[0]);
    }
    lemma_run_end(text, at, end, CharClass::Hex);
    if at > 0 {
        assert(text[at - 1] == before.last());
    }
    assert(text[at + letter] == hash[letter]);
    assert(!is_digit(text[at + letter]));
    assert(hash_at(text, at));
}

/// A word that tells of work is something concrete.
pub proof fn telling_words_are_something_concrete(text: Seq<char>)
    ensures
        occurs_in(text, "fixed"@) || occurs_in(text, "decided"@) || occurs_in(text, "implemented"@)
            || occurs_in(text, "verified"@) || occurs_in(text, "unfinished"@) ==> has_content(text),
{
    let told = content_words();
    assert(told[0] == "fixed"@ && told[1] == "decided"@ && told[4] == "implemented"@ && told[5]
        == "verified"@ && told[6] == "unfinished"@);
}

} // verus!
