//! Provider messages: what a user, the model and its tools say to each other.
use vstd::prelude::*;

use crate::text::same_text;

verus! {

/// Content of the synthetic error result that stands in for every tool call
/// left unanswered by an interrupted turn. Sessions older than the `synthetic`
/// flag recognise their placeholders by this text alone.
pub const INTERRUPTED: &'static str = "[turn interrupted before a tool result was produced]";

/// Model-facing content of a repeated `get_background_tasks` poll whose
/// running-task snapshot did not change within the turn.
pub const POLL_GUARD_ERROR: &'static str = "poll guard: get_background_tasks was already called with this exact task list this turn; end the turn and wait for the automatic [background task N completed] injection instead of polling again";

/// Internal result that asks the batch loop to end the turn. It never enters
/// history, model context or UI: [`tool_error_content`] replaces it.
pub const POLL_GUARD_SENTINEL: &'static str = "\u{0}poll-guard-terminate";

/// Notice emitted after the full tool batch when the poll guard ends a turn.
pub const POLL_GUARD_TERMINATION_NOTICE: &'static str =
    "repeated get_background_tasks calls with an unchanged task list; ending this turn";

/// Note appended to a message whose images were dropped.
pub const IMAGES_SKIPPED: &'static str = "（当前模型不支持图片，已跳过附加）";

/// Reference to an image in the content-addressed image store.
#[derive(Debug, PartialEq, Eq)]
pub struct ImagePart {
    /// SHA-256 hex digest of the content; also the file name in the store.
    pub hash: String,
    /// MIME type, e.g. `image/png`.
    pub mime: String,
}

/// Model of an [`ImagePart`].
#[verifier::ext_equal]
pub struct ImageView {
    pub hash: Seq<char>,
    pub mime: Seq<char>,
}

impl DeepView for ImagePart {
    type V = ImageView;

    open spec fn deep_view(&self) -> ImageView {
        ImageView { hash: self.hash@, mime: self.mime@ }
    }
}

impl Clone for ImagePart {
    fn clone(&self) -> (r: Self)
        ensures
            r.deep_view() == self.deep_view(),
    {
        ImagePart { hash: self.hash.clone(), mime: self.mime.clone() }
    }
}

/// A structured tool result: text plus optional image attachments.
#[derive(Debug, PartialEq)]
pub struct ToolOutput {
    pub content: String,
    pub images: Vec<ImagePart>,
}

/// Model of a [`ToolOutput`].
#[verifier::ext_equal]
pub struct OutputView {
    pub content: Seq<char>,
    pub images: Seq<ImageView>,
}

impl DeepView for ToolOutput {
    type V = OutputView;

    open spec fn deep_view(&self) -> OutputView {
        OutputView { content: self.content@, images: self.images.deep_view() }
    }
}

impl Clone for ToolOutput {
    fn clone(&self) -> (r: Self)
        ensures
            r.deep_view() == self.deep_view(),
    {
        let images = self.images.clone();
        assert(images.deep_view() =~= self.images.deep_view());
        ToolOutput { content: self.content.clone(), images }
    }
}

impl Default for ToolOutput {
    fn default() -> (r: Self)
        ensures
            r.deep_view() == (OutputView { content: Seq::empty(), images: Seq::empty() }),
    {
        ToolOutput { content: String::new(), images: Vec::new() }
    }
}

impl ToolOutput {
    /// Plain text result without image attachments.
    pub fn text(content: &str) -> (r: Self)
        ensures
            r.deep_view() == (OutputView { content: content@, images: Seq::empty() }),
    {
        ToolOutput { content: content.to_owned(), images: Vec::new() }
    }
}

/// One call that the model asks for.
#[derive(Debug, PartialEq)]
pub struct ToolCall {
    pub id: String,
    pub name: String,
    /// JSON text of the arguments, as the model wrote it.
    pub arguments: String,
}

/// Model of a [`ToolCall`].
#[verifier::ext_equal]
pub struct CallView {
    pub id: Seq<char>,
    pub name: Seq<char>,
    pub arguments: Seq<char>,
}

impl DeepView for ToolCall {
    type V = CallView;

    open spec fn deep_view(&self) -> CallView {
        CallView { id: self.id@, name: self.name@, arguments: self.arguments@ }
    }
}

impl Clone for ToolCall {
    fn clone(&self) -> (r: Self)
        ensures
            r.deep_view() == self.deep_view(),
    {
        ToolCall {
            id: self.id.clone(),
            name: self.name.clone(),
            arguments: self.arguments.clone(),
        }
    }
}

/// What the model answered in one round.
#[derive(Debug, PartialEq)]
pub struct AssistantMessage {
    pub content: Option<String>,
    pub tool_calls: Vec<ToolCall>,
    /// Model reasoning, kept for display and audit.
    pub reasoning: Option<String>,
}

/// Model of an [`AssistantMessage`].
#[verifier::ext_equal]
pub struct AssistantView {
    pub content: Option<Seq<char>>,
    pub tool_calls: Seq<CallView>,
    pub reasoning: Option<Seq<char>>,
}

impl DeepView for AssistantMessage {
    type V = AssistantView;

    open spec fn deep_view(&self) -> AssistantView {
        AssistantView {
            content: self.content.deep_view(),
            tool_calls: self.tool_calls.deep_view(),
            reasoning: self.reasoning.deep_view(),
        }
    }
}

impl Clone for AssistantMessage {
    fn clone(&self) -> (r: Self)
        ensures
            r.deep_view() == self.deep_view(),
    {
        let content = self.content.clone();
        let tool_calls = self.tool_calls.clone();
        let reasoning = self.reasoning.clone();
        assert(tool_calls.deep_view() =~= self.tool_calls.deep_view());
        AssistantMessage { content, tool_calls, reasoning }
    }
}

/// One message of a provider context.
#[derive(Debug, PartialEq)]
pub enum Message {
    /// System-prompt-style context.
    System { content: String },
    User {
        content: String,
        /// Attached images, as references into the image store.
        images: Vec<ImagePart>,
    },
    Assistant(AssistantMessage),
    Tool {
        call_id: String,
        name: String,
        content: String,
        /// Images produced by the tool, as references into the image store.
        images: Vec<ImagePart>,
        is_error: bool,
        /// Placeholder for a call that an interrupted turn left unanswered,
        /// never a real tool result.
        synthetic: bool,
    },
}

/// Model of a [`Message`].
#[verifier::ext_equal]
pub enum MessageView {
    System { content: Seq<char> },
    User { content: Seq<char>, images: Seq<ImageView> },
    Assistant(AssistantView),
    Tool {
        call_id: Seq<char>,
        name: Seq<char>,
        content: Seq<char>,
        images: Seq<ImageView>,
        is_error: bool,
        synthetic: bool,
    },
}

impl DeepView for Message {
    type V = MessageView;

    open spec fn deep_view(&self) -> MessageView {
        match self {
            Message::System { content } => MessageView::System { content: content@ },
            Message::User { content, images } => MessageView::User {
                content: content@,
                images: images.deep_view(),
            },
            Message::Assistant(assistant) => MessageView::Assistant(assistant.deep_view()),
            Message::Tool { call_id, name, content, images, is_error, synthetic } => MessageView::Tool {
                call_id: call_id@,
                name: name@,
                content: content@,
                images: images.deep_view(),
                is_error: *is_error,
                synthetic: *synthetic,
            },
        }
    }
}

impl Clone for Message {
    fn clone(&self) -> (r: Self)
        ensures
            r.deep_view() == self.deep_view(),
    {
        match self {
            Message::System { content } => Message::System { content: content.clone() },
            Message::User { content, images } => {
                let copied = images.clone();
                assert(copied.deep_view() =~= images.deep_view());
                Message::User { content: content.clone(), images: copied }
            },
            Message::Assistant(assistant) => Message::Assistant(assistant.clone()),
            Message::Tool { call_id, name, content, images, is_error, synthetic } => {
                let copied = images.clone();
                assert(copied.deep_view() =~= images.deep_view());
                Message::Tool {
                    call_id: call_id.clone(),
                    name: name.clone(),
                    content: content.clone(),
                    images: copied,
                    is_error: *is_error,
                    synthetic: *synthetic,
                }
            },
        }
    }
}

/// What kind of text a streamed piece of a model answer belongs to.
#[derive(Clone, Copy, Debug, PartialEq, Eq, Structural)]
pub enum ModelDeltaKind {
    Content,
    Reasoning,
}

/// Whether a tool result asks the batch loop to end the turn.
pub open spec fn asks_to_terminate(result: Result<ToolOutput, String>) -> bool {
    result matches Err(error) && error@ == POLL_GUARD_SENTINEL@
}

/// The text of a tool error that may enter history and UI.
pub open spec fn shown_error(error: Seq<char>) -> Seq<char> {
    if error == POLL_GUARD_SENTINEL@ {
        POLL_GUARD_ERROR@
    } else {
        error
    }
}

/// Whether `result` is the internal poll-guard termination sentinel.
pub fn is_poll_guard_terminate(result: &Result<ToolOutput, String>) -> (r: bool)
    ensures
        r == asks_to_terminate(*result),
{
    match result {
        Ok(_) => false,
        Err(error) => same_text(error.as_str(), POLL_GUARD_SENTINEL),
    }
}

/// The content that a tool error contributes to history and UI: the sentinel
/// becomes [`POLL_GUARD_ERROR`], every other error passes through unchanged.
pub fn tool_error_content(error: &str) -> (r: &str)
    ensures
        r@ == shown_error(error@),
{
    if same_text(error, POLL_GUARD_SENTINEL) {
        POLL_GUARD_ERROR
    } else {
        error
    }
}

/// Whether a message carries images.
pub open spec fn has_images(message: MessageView) -> bool {
    match message {
        MessageView::User { images, .. } => images.len() > 0,
        MessageView::Tool { images, .. } => images.len() > 0,
        _ => false,
    }
}

/// A message with its images dropped and the drop noted in its text.
pub open spec fn stripped(message: MessageView) -> MessageView {
    match message {
        MessageView::User { content, images } if images.len() > 0 => MessageView::User {
            content: content + IMAGES_SKIPPED@,
            images: Seq::empty(),
        },
        MessageView::Tool { call_id, name, content, images, is_error, synthetic } if images.len()
            > 0 => MessageView::Tool {
            call_id,
            name,
            content: content + IMAGES_SKIPPED@,
            images: Seq::empty(),
            is_error,
            synthetic,
        },
        _ => message,
    }
}

/// Drop the images of user and tool messages and note it in their text.
/// Applied to request copies for models without vision.
pub fn strip_images(messages: &mut [Message])
    ensures
        final(messages)@.len() == old(messages)@.len(),
        forall|i: int|
            0 <= i < old(messages)@.len() ==> (#[trigger] final(messages)@[i]).deep_view()
                == stripped(old(messages)@[i].deep_view()),
{
    let ghost before = messages@;
    let mut i: usize = 0;
    while i < messages.len()
        invariant
            i <= messages@.len() == before.len(),
            forall|j: int|
                0 <= j < i ==> (#[trigger] messages@[j]).deep_view() == stripped(
                    before[j].deep_view(),
                ),
            forall|j: int| i <= j < before.len() ==> messages@[j] == before[j],
        decreases messages@.len() - i,
    {
        let message = &mut messages[i];
        match message {
            Message::User { content, images } => {
                if !images.is_empty() {
                    images.clear();
                    content.push_str(IMAGES_SKIPPED);
                }
            },
            Message::Tool { content, images, .. } => {
                if !images.is_empty() {
                    images.clear();
                    content.push_str(IMAGES_SKIPPED);
                }
            },
            _ => {},
        }
        i += 1;
    }
}

/// The text of the vision gate's refusal.
pub open spec fn vision_error(model: Seq<char>) -> Seq<char> {
    "model "@ + model + " does not support image input"@
}

/// Messages with images require a model with vision.
pub fn ensure_vision_supported(model: &str, vision: bool, messages: &[Message]) -> (r: Result<
    (),
    String,
>)
    ensures
        r is Ok <==> vision || forall|i: int|
            0 <= i < messages@.len() ==> !has_images((#[trigger] messages@[i]).deep_view()),
        r matches Err(error) ==> error@ == vision_error(model@),
{
    let mut i: usize = 0;
    while i < messages.len()
        invariant
            i <= messages@.len(),
            vision || forall|j: int|
                0 <= j < i ==> !has_images((#[trigger] messages@[j]).deep_view()),
        decreases messages@.len() - i,
    {
        let carries = match &messages[i] {
            Message::User { images, .. } => !images.is_empty(),
            Message::Tool { images, .. } => !images.is_empty(),
            _ => false,
        };
        if carries && !vision {
            let mut error = String::new();
            error.push_str("model ");
            error.push_str(model);
            error.push_str(" does not support image input");
            assert(error@ =~= vision_error(model@));
            assert(has_images(messages@[i as int].deep_view()));
            return Err(error);
        }
        i += 1;
    }
    Ok(())
}

/// A stripped message passes the vision gate of every model, and stripping it
/// once more changes nothing.
pub proof fn stripping_settles_the_vision_gate(message: MessageView)
    ensures
        !has_images(stripped(message)),
        stripped(stripped(message)) == stripped(message),
{
}

/// Stripping a message takes its images and says so behind its text; everything
/// else stays, and a message without images stays as it is.
pub proof fn stripping_takes_the_images_only(message: MessageView)
    ensures
        match message {
            MessageView::User { content, images } => stripped(message) == if images.len() > 0 {
                MessageView::User { content: content + IMAGES_SKIPPED@, images: Seq::empty() }
            } else {
                message
            },
            MessageView::Tool { call_id, name, content, images, is_error, synthetic } => stripped(
                message,
            ) == if images.len() > 0 {
                MessageView::Tool {
                    call_id,
                    name,
                    content: content + IMAGES_SKIPPED@,
                    images: Seq::empty(),
                    is_error,
                    synthetic,
                }
            } else {
                message
            },
            _ => stripped(message) == message,
        },
        has_images(message) <==> match message {
            MessageView::User { images, .. } => images.len() > 0,
            MessageView::Tool { images, .. } => images.len() > 0,
            _ => false,
        },
{
}

/// Every error of a tool is shown as it is, but for the one that ends the turn,
/// which is shown in words.
pub proof fn errors_are_shown_as_they_are(error: Seq<char>)
    ensures
        error != POLL_GUARD_SENTINEL@ ==> shown_error(error) == error,
        shown_error(POLL_GUARD_SENTINEL@) == POLL_GUARD_ERROR@,
{
}

/// The models of messages and calls show all that they hold.
pub proof fn messages_are_seen_whole(
    message: Message,
    call: ToolCall,
    assistant: AssistantMessage,
    image: ImagePart,
)
    ensures
        call.deep_view().id == call.id@,
        call.deep_view().name == call.name@,
        call.deep_view().arguments == call.arguments@,
        assistant.deep_view().content == assistant.content.deep_view(),
        assistant.deep_view().tool_calls == assistant.tool_calls.deep_view(),
        assistant.deep_view().reasoning == assistant.reasoning.deep_view(),
        image.deep_view().hash == image.hash@ && image.deep_view().mime == image.mime@,
        match message {
            Message::System { content } => message.deep_view() == (MessageView::System {
                content: content@,
            }),
            Message::User { content, images } => message.deep_view() == (MessageView::User {
                content: content@,
                images: images.deep_view(),
            }),
            Message::Assistant(answer) => message.deep_view() == MessageView::Assistant(
                answer.deep_view(),
            ),
            Message::Tool { call_id, name, content, images, is_error, synthetic } => message.deep_view()
                == (MessageView::Tool {
                call_id: call_id@,
                name: name@,
                content: content@,
                images: images.deep_view(),
                is_error,
                synthetic,
            }),
        },
{
}

} // verus!
