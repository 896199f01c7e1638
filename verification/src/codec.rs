//! The persisted form of messages as JSON documents.
use vstd::prelude::*;

use crate::json::{get, json_text, json_text_of, plain, put, Json, JsonView};
use crate::message::{
    AssistantMessage, AssistantView, CallView, ImagePart, ImageView, Message, MessageView, ToolCall,
};

verus! {

/// An image reference as JSON.
pub open spec fn image_json(image: ImageView) -> JsonView {
    JsonView::Object(
        seq![("hash"@, JsonView::Str(image.hash)), ("mime"@, JsonView::Str(image.mime))],
    )
}

/// Image references as a JSON array.
pub open spec fn images_json(images: Seq<ImageView>) -> JsonView {
    JsonView::Array(images.map_values(|image: ImageView| image_json(image)))
}

/// A tool call as JSON.
pub open spec fn call_json(call: CallView) -> JsonView {
    JsonView::Object(
        seq![
            ("id"@, JsonView::Str(call.id)),
            ("name"@, JsonView::Str(call.name)),
            ("arguments"@, JsonView::Str(call.arguments)),
        ],
    )
}

/// Tool calls as a JSON array.
pub open spec fn calls_json(calls: Seq<CallView>) -> JsonView {
    JsonView::Array(calls.map_values(|call: CallView| call_json(call)))
}

/// An assistant message as JSON; absent reasoning is left out.
pub open spec fn assistant_json(assistant: AssistantView) -> JsonView {
    let content = match assistant.content {
        Some(text) => JsonView::Str(text),
        None => JsonView::Null,
    };
    let fields = seq![("content"@, content), ("tool_calls"@, calls_json(assistant.tool_calls))];
    JsonView::Object(
        match assistant.reasoning {
            Some(text) => fields.push(("reasoning"@, JsonView::Str(text))),
            None => fields,
        },
    )
}

/// The fields of a user message as JSON; an empty image list is left out.
pub open spec fn user_fields(content: Seq<char>, images: Seq<ImageView>) -> Seq<
    (Seq<char>, JsonView),
> {
    let fields = seq![("content"@, JsonView::Str(content))];
    if images.len() > 0 {
        fields.push(("images"@, images_json(images)))
    } else {
        fields
    }
}

/// The fields of a tool result as JSON; an empty image list is left out.
pub open spec fn tool_fields(message: MessageView) -> Seq<(Seq<char>, JsonView)>
    recommends
        message is Tool,
{
    let fields = seq![
        ("call_id"@, JsonView::Str(message->call_id)),
        ("name"@, JsonView::Str(message->name)),
        ("content"@, JsonView::Str(message->Tool_content)),
    ];
    let fields = if message->Tool_images.len() > 0 {
        fields.push(("images"@, images_json(message->Tool_images)))
    } else {
        fields
    };
    fields.push(("is_error"@, JsonView::Bool(message->is_error))).push(
        ("synthetic"@, JsonView::Bool(message->synthetic)),
    )
}

/// A message as JSON: an object with one field, named after the kind of message.
pub open spec fn message_json(message: MessageView) -> JsonView {
    JsonView::Object(
        match message {
            MessageView::System { content } => seq![
                ("System"@, JsonView::Object(seq![("content"@, JsonView::Str(content))])),
            ],
            MessageView::User { content, images } => seq![
                ("User"@, JsonView::Object(user_fields(content, images))),
            ],
            MessageView::Assistant(assistant) => seq![("Assistant"@, assistant_json(assistant))],
            MessageView::Tool { .. } => seq![("Tool"@, JsonView::Object(tool_fields(message)))],
        },
    )
}

/// Messages as a JSON array.
pub open spec fn messages_json(messages: Seq<MessageView>) -> JsonView {
    JsonView::Array(messages.map_values(|message: MessageView| message_json(message)))
}

/// An image reference as JSON.
fn image_to_json(image: &ImagePart) -> (r: Json)
    ensures
        r.deep_view() == image_json(image.deep_view()),
{
    let mut fields: Vec<(String, Json)> = Vec::new();
    put(&mut fields, "hash", Json::string(image.hash.as_str()));
    put(&mut fields, "mime", Json::string(image.mime.as_str()));
    assert(fields.deep_view() =~= image_json(image.deep_view())->Object_0);
    Json::object(fields)
}

/// Image references as a JSON array.
fn images_to_json(images: &Vec<ImagePart>) -> (r: Json)
    ensures
        r.deep_view() == images_json(images.deep_view()),
{
    let mut out: Vec<Json> = Vec::new();
    let mut i: usize = 0;
    while i < images.len()
        invariant
            i <= images.len(),
            out@.len() == i,
            forall|j: int|
                0 <= j < i ==> (#[trigger] out@[j]).deep_view() == image_json(
                    images@[j].deep_view(),
                ),
        decreases images.len() - i,
    {
        out.push(image_to_json(&images[i]));
        i += 1;
    }
    assert(out.deep_view() =~= images_json(images.deep_view())->Array_0);
    Json::array(out)
}

/// Tool calls as a JSON array.
fn calls_to_json(calls: &Vec<ToolCall>) -> (r: Json)
    ensures
        r.deep_view() == calls_json(calls.deep_view()),
{
    let mut out: Vec<Json> = Vec::new();
    let mut i: usize = 0;
    while i < calls.len()
        invariant
            i <= calls.len(),
            out@.len() == i,
            forall|j: int|
                0 <= j < i ==> (#[trigger] out@[j]).deep_view() == call_json(calls@[j].deep_view()),
        decreases calls.len() - i,
    {
        let mut fields: Vec<(String, Json)> = Vec::new();
        put(&mut fields, "id", Json::string(calls[i].id.as_str()));
        put(&mut fields, "name", Json::string(calls[i].name.as_str()));
        put(&mut fields, "arguments", Json::string(calls[i].arguments.as_str()));
        assert(fields.deep_view() =~= call_json(calls@[i as int].deep_view())->Object_0);
        out.push(Json::object(fields));
        i += 1;
    }
    assert(out.deep_view() =~= calls_json(calls.deep_view())->Array_0);
    Json::array(out)
}

/// An assistant message as JSON.
fn assistant_to_json(assistant: &AssistantMessage) -> (r: Json)
    ensures
        r.deep_view() == assistant_json(assistant.deep_view()),
{
    let mut fields: Vec<(String, Json)> = Vec::new();
    let content = match &assistant.content {
        Some(text) => Json::string(text.as_str()),
        None => Json::Null,
    };
    put(&mut fields, "content", content);
    put(&mut fields, "tool_calls", calls_to_json(&assistant.tool_calls));
    if let Some(text) = &assistant.reasoning {
        put(&mut fields, "reasoning", Json::string(text.as_str()));
    }
    assert(fields.deep_view() =~= assistant_json(assistant.deep_view())->Object_0);
    Json::object(fields)
}

/// A message as JSON, in its persisted form.
pub fn message_to_json(message: &Message) -> (r: Json)
    ensures
        r.deep_view() == message_json(message.deep_view()),
{
    let mut outer: Vec<(String, Json)> = Vec::new();
    let mut fields: Vec<(String, Json)> = Vec::new();
    match message {
        Message::System { content } => {
            put(&mut fields, "content", Json::string(content.as_str()));
            assert(fields.deep_view() =~= seq![("content"@, JsonView::Str(content@))]);
            put(&mut outer, "System", Json::object(fields));
        },
        Message::User { content, images } => {
            put(&mut fields, "content", Json::string(content.as_str()));
            if images.len() > 0 {
                put(&mut fields, "images", images_to_json(images));
            }
            assert(fields.deep_view() =~= user_fields(content@, images.deep_view()));
            put(&mut outer, "User", Json::object(fields));
        },
        Message::Assistant(assistant) => {
            put(&mut outer, "Assistant", assistant_to_json(assistant));
        },
        Message::Tool { call_id, name, content, images, is_error, synthetic } => {
            put(&mut fields, "call_id", Json::string(call_id.as_str()));
            put(&mut fields, "name", Json::string(name.as_str()));
            put(&mut fields, "content", Json::string(content.as_str()));
            if images.len() > 0 {
                put(&mut fields, "images", images_to_json(images));
            }
            put(&mut fields, "is_error", Json::Bool(*is_error));
            put(&mut fields, "synthetic", Json::Bool(*synthetic));
            assert(fields.deep_view() =~= tool_fields(message.deep_view()));
            put(&mut outer, "Tool", Json::object(fields));
        },
    }
    assert(outer.deep_view() =~= message_json(message.deep_view())->Object_0);
    Json::object(outer)
}

/// Messages as a JSON array, in their persisted form.
pub fn messages_to_json(messages: &Vec<Message>) -> (r: Json)
    ensures
        r.deep_view() == messages_json(messages.deep_view()),
{
    let mut out: Vec<Json> = Vec::new();
    let mut i: usize = 0;
    while i < messages.len()
        invariant
            i <= messages.len(),
            out@.len() == i,
            forall|j: int|
                0 <= j < i ==> (#[trigger] out@[j]).deep_view() == message_json(
                    messages@[j].deep_view(),
                ),
        decreases messages.len() - i,
    {
        out.push(message_to_json(&messages[i]));
        i += 1;
    }
    assert(out.deep_view() =~= messages_json(messages.deep_view())->Array_0);
    Json::array(out)
}

/// The keys of the persisted form differ from each other.
proof fn lemma_message_keys()
    ensures
        "content"@ != "images"@,
        "hash"@ != "mime"@,
        "id"@ != "name"@,
        "id"@ != "arguments"@,
        "name"@ != "arguments"@,
        "content"@ != "tool_calls"@,
        "content"@ != "reasoning"@,
        "tool_calls"@ != "reasoning"@,
        "call_id"@ != "name"@,
        "call_id"@ != "content"@,
        "call_id"@ != "images"@,
        "call_id"@ != "is_error"@,
        "call_id"@ != "synthetic"@,
        "name"@ != "content"@,
        "name"@ != "images"@,
        "name"@ != "is_error"@,
        "name"@ != "synthetic"@,
        "content"@ != "is_error"@,
        "content"@ != "synthetic"@,
        "images"@ != "is_error"@,
        "images"@ != "synthetic"@,
        "is_error"@ != "synthetic"@,
{
    reveal_strlit("content");
    reveal_strlit("images");
    reveal_strlit("hash");
    reveal_strlit("mime");
    reveal_strlit("id");
    reveal_strlit("name");
    reveal_strlit("arguments");
    reveal_strlit("tool_calls");
    reveal_strlit("reasoning");
    reveal_strlit("call_id");
    reveal_strlit("is_error");
    reveal_strlit("synthetic");
    assert("content"@[0] == 'c' && "images"@[0] == 'i' && "hash"@[0] == 'h' && "mime"@[0] == 'm');
    assert("id"@[0] == 'i' && "name"@[0] == 'n' && "arguments"@[0] == 'a');
    assert("tool_calls"@[0] == 't' && "reasoning"@[0] == 'r' && "call_id"@[1] == 'a');
    assert("content"@[1] == 'o' && "call_id"@[0] == 'c' && "is_error"@[0] == 'i');
    assert("images"@[1] == 'm' && "is_error"@[1] == 's' && "synthetic"@[0] == 's');
}

proof fn lemma_message_json_is_plain(message: MessageView)
    ensures
        plain(message_json(message)),
{
    lemma_message_keys();
    reveal_with_fuel(plain, 5);
    match message {
        MessageView::System { content } => {},
        MessageView::User { content, images } => {
            lemma_images_json_is_plain(images);
            assert(plain(JsonView::Object(user_fields(content, images))));
        },
        MessageView::Assistant(assistant) => {
            lemma_calls_json_is_plain(assistant.tool_calls);
            assert(plain(assistant_json(assistant)));
        },
        MessageView::Tool { images, .. } => {
            lemma_images_json_is_plain(images);
            assert(plain(JsonView::Object(tool_fields(message))));
        },
    }
}

proof fn lemma_images_json_is_plain(images: Seq<ImageView>)
    ensures
        plain(images_json(images)),
{
    lemma_message_keys();
    reveal_with_fuel(plain, 3);
    let items = images_json(images)->Array_0;
    assert forall|i: int| 0 <= i < items.len() implies plain(#[trigger] items[i]) by {
        assert(items[i] == image_json(images[i]));
    }
}

proof fn lemma_calls_json_is_plain(calls: Seq<CallView>)
    ensures
        plain(calls_json(calls)),
{
    lemma_message_keys();
    reveal_with_fuel(plain, 3);
    let items = calls_json(calls)->Array_0;
    assert forall|i: int| 0 <= i < items.len() implies plain(#[trigger] items[i]) by {
        assert(items[i] == call_json(calls[i]));
    }
}

/// Length in bytes of the persisted text of a list of messages.
pub open spec fn persisted_len(messages: Seq<MessageView>) -> usize {
    vstd::utf8::encode_utf8(json_text_of(messages_json(messages))).len() as usize
}

/// Length in bytes of the persisted text of a list of messages.
pub fn persisted_bytes(messages: &Vec<Message>) -> (r: usize)
    ensures
        r == persisted_len(messages.deep_view()),
{
    let json = messages_to_json(messages);
    proof {
        let items = messages_json(messages.deep_view())->Array_0;
        assert forall|i: int| 0 <= i < items.len() implies plain(#[trigger] items[i]) by {
            assert(items[i] == message_json(messages.deep_view()[i]));
            lemma_message_json_is_plain(messages.deep_view()[i]);
        }
    }
    let text = json_text(&json);
    text.as_str().len()
}

proof fn lemma_names_differ()
    ensures
        "call_id"@ != "content"@,
        "call_id"@ != "images"@,
        "call_id"@ != "is_error"@,
        "call_id"@ != "name"@,
        "call_id"@ != "synthetic"@,
        "content"@ != "images"@,
        "content"@ != "is_error"@,
        "content"@ != "reasoning"@,
        "content"@ != "synthetic"@,
        "content"@ != "tool_calls"@,
        "hash"@ != "mime"@,
        "id"@ != "arguments"@,
        "id"@ != "name"@,
        "images"@ != "is_error"@,
        "images"@ != "synthetic"@,
        "is_error"@ != "synthetic"@,
        "name"@ != "arguments"@,
        "name"@ != "content"@,
        "name"@ != "images"@,
        "name"@ != "is_error"@,
        "name"@ != "synthetic"@,
        "tool_calls"@ != "reasoning"@,
{
    reveal_strlit("hash");
    reveal_strlit("mime");
    reveal_strlit("id");
    reveal_strlit("name");
    reveal_strlit("arguments");
    reveal_strlit("content");
    reveal_strlit("tool_calls");
    reveal_strlit("reasoning");
    reveal_strlit("images");
    reveal_strlit("call_id");
    reveal_strlit("is_error");
    reveal_strlit("synthetic");
    assert("hash"@.len() == 4);
    assert("mime"@.len() == 4);
    assert("id"@.len() == 2);
    assert("name"@.len() == 4);
    assert("arguments"@.len() == 9);
    assert("content"@.len() == 7);
    assert("tool_calls"@.len() == 10);
    assert("reasoning"@.len() == 9);
    assert("images"@.len() == 6);
    assert("call_id"@.len() == 7);
    assert("is_error"@.len() == 8);
    assert("synthetic"@.len() == 9);
    assert("call_id"@[1] == 'a');
    assert("content"@[1] == 'o');
    assert("hash"@[0] == 'h');
    assert("mime"@[0] == 'm');
}

proof fn lemma_fields_at(fields: Seq<(Seq<char>, JsonView)>)
    requires
        forall|i: int, j: int|
            0 <= i < j < fields.len() ==> (#[trigger] fields[i]).0 != (#[trigger] fields[j]).0,
    ensures
        forall|at: int|
            0 <= at < fields.len() ==> get(
                JsonView::Object(fields),
                (#[trigger] fields[at]).0,
            ) == Some(fields[at].1),
{
    assert forall|at: int| 0 <= at < fields.len() implies get(
        JsonView::Object(fields),
        (#[trigger] fields[at]).0,
    ) == Some(fields[at].1) by {
        crate::json::fields_are_found_by_name(fields, fields[at].0, at);
    }
}

/// A call is stored under its own names: id, name and arguments.
pub proof fn calls_are_stored_whole(calls: Seq<CallView>, i: int)
    requires
        0 <= i < calls.len(),
    ensures
        calls_json(calls) matches JsonView::Array(stored) && stored.len() == calls.len() && get(
            stored[i],
            "id"@,
        ) == Some(JsonView::Str(calls[i].id)) && get(stored[i], "name"@) == Some(
            JsonView::Str(calls[i].name),
        ) && get(stored[i], "arguments"@) == Some(JsonView::Str(calls[i].arguments)),
{
    lemma_names_differ();
    let fields = call_json(calls[i])->Object_0;
    lemma_fields_at(fields);
    assert(fields[0].0 == "id"@ && fields[1].0 == "name"@ && fields[2].0 == "arguments"@);
}

/// A message is stored whole under the name of its kind: its text, its calls and
/// reasoning, its images where it has any, and of a result the call that it answers
/// and its flags.
pub proof fn messages_are_stored_whole(message: MessageView)
    ensures
        match message {
            MessageView::System { content } => get(message_json(message), "System"@) matches Some(
                inner,
            ) && get(inner, "content"@) == Some(JsonView::Str(content)),
            MessageView::User { content, images } => get(
                message_json(message),
                "User"@,
            ) matches Some(inner) && get(inner, "content"@) == Some(JsonView::Str(content))
                && get(inner, "images"@) == if images.len() > 0 {
                Some(images_json(images))
            } else {
                None
            },
            MessageView::Assistant(assistant) => get(
                message_json(message),
                "Assistant"@,
            ) matches Some(inner) && get(inner, "content"@) == Some(
                match assistant.content {
                    Some(text) => JsonView::Str(text),
                    None => JsonView::Null,
                },
            ) && get(inner, "tool_calls"@) == Some(calls_json(assistant.tool_calls)) && get(
                inner,
                "reasoning"@,
            ) == match assistant.reasoning {
                Some(text) => Some(JsonView::Str(text)),
                None => None,
            },
            MessageView::Tool { call_id, name, content, images, is_error, synthetic } => get(
                message_json(message),
                "Tool"@,
            ) matches Some(inner) && get(inner, "call_id"@) == Some(JsonView::Str(call_id)) && get(
                inner,
                "name"@,
            ) == Some(JsonView::Str(name)) && get(inner, "content"@) == Some(
                JsonView::Str(content),
            ) && get(inner, "is_error"@) == Some(JsonView::Bool(is_error)) && get(
                inner,
                "synthetic"@,
            ) == Some(JsonView::Bool(synthetic)) && get(inner, "images"@) == if images.len() > 0 {
                Some(images_json(images))
            } else {
                None
            },
        },
{
    lemma_names_differ();
    let outer = message_json(message)->Object_0;
    lemma_fields_at(outer);
    match message {
        MessageView::System { content } => {
            let fields = outer[0].1->Object_0;
            lemma_fields_at(fields);
            assert(outer[0].0 == "System"@ && fields[0].0 == "content"@);
        },
        MessageView::User { content, images } => {
            let fields = user_fields(content, images);
            lemma_fields_at(fields);
            assert(outer[0].0 == "User"@ && fields[0].0 == "content"@);
            if images.len() > 0 {
                assert(fields[1].0 == "images"@);
            } else {
                crate::json::fields_are_found_by_name(fields, "images"@, 1);
            }
        },
        MessageView::Assistant(assistant) => {
            let fields = assistant_json(assistant)->Object_0;
            lemma_fields_at(fields);
            assert(outer[0].0 == "Assistant"@ && fields[0].0 == "content"@ && fields[1].0
                == "tool_calls"@);
            if assistant.reasoning is Some {
                assert(fields[2].0 == "reasoning"@);
            } else {
                crate::json::fields_are_found_by_name(fields, "reasoning"@, 2);
            }
        },
        MessageView::Tool { call_id, name, content, images, is_error, synthetic } => {
            let fields = tool_fields(message);
            assert(outer[0].0 == "Tool"@ && fields[0].0 == "call_id"@ && fields[1].0 == "name"@
                && fields[2].0 == "content"@);
            if images.len() > 0 {
                assert(fields.len() == 6 && fields[3].0 == "images"@ && fields[4].0 == "is_error"@
                    && fields[5].0 == "synthetic"@);
                lemma_fields_at(fields);
            } else {
                assert(fields.len() == 5 && fields[3].0 == "is_error"@ && fields[4].0
                    == "synthetic"@);
                lemma_fields_at(fields);
                crate::json::fields_are_found_by_name(fields, "images"@, 5);
            }
        },
    }
}

} // verus!
