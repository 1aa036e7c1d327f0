//! The content of a chat completion request made from a conversation: for
//! every message, the image URL and the attached image when there are any,
//! then the message's text.
use vstd::prelude::*;
use crate::models::ChatApiMessage;
use crate::text::{contains, opt_view, str_contains};

verus! {

/// One part of the user message sent for a chat completion.
#[derive(Debug)]
pub enum ContentPart {
    /// An image, by URL (a web address or a data URL).
    ImageUrl(String),
    /// A text.
    Text(String),
}

/// The spec value of a part: whether it is an image, and its text.
pub open spec fn part_view(p: ContentPart) -> (bool, Seq<char>) {
    match p {
        ContentPart::ImageUrl(u) => (true, u@),
        ContentPart::Text(t) => (false, t@),
    }
}

/// The spec values of a list of parts.
pub open spec fn parts_view(ps: Seq<ContentPart>) -> Seq<(bool, Seq<char>)> {
    ps.map_values(|p: ContentPart| part_view(p))
}

/// Whether the attached file is sent as an image: it has a name and a body
/// that holds `base64,`.
pub open spec fn sends_attachment(file_name: Seq<char>, file_body: Seq<char>) -> bool {
    file_name.len() > 0 && file_body.len() > 0 && contains(file_body, "base64,"@)
}

/// The parts sent for one message.
pub open spec fn message_parts(
    content: Seq<char>,
    image_url: Option<Seq<char>>,
    file_name: Seq<char>,
    file_body: Seq<char>,
) -> Seq<(bool, Seq<char>)> {
    (match image_url {
        Some(u) => if u.len() > 0 {
            seq![(true, u)]
        } else {
            Seq::empty()
        },
        None => Seq::empty(),
    }) + (if sends_attachment(file_name, file_body) {
        seq![(true, file_body)]
    } else {
        Seq::empty()
    }) + seq![(false, content)]
}

/// The parts sent for a conversation, message after message.
pub open spec fn chat_parts(
    messages: Seq<ChatApiMessage>,
    image_url: Option<Seq<char>>,
    file_name: Seq<char>,
    file_body: Seq<char>,
) -> Seq<(bool, Seq<char>)>
    decreases messages.len(),
{
    if messages.len() == 0 {
        Seq::empty()
    } else {
        chat_parts(messages.drop_last(), image_url, file_name, file_body) + message_parts(
            messages.last().content@,
            image_url,
            file_name,
            file_body,
        )
    }
}

/// The model and token limit of a streamed completion: the model defaults
/// to `gpt-4o-mini` and the token limit to 2048.
pub fn completion_settings(model: Option<String>, max_tokens: Option<u32>) -> (res: (String, u32))
    ensures
        res.0@ == (match model {
            Some(m) => m@,
            None => "gpt-4o-mini"@,
        }),
        res.1 == (match max_tokens {
            Some(n) => n,
            None => 2048,
        }),
{
    let model = match model {
        Some(m) => m,
        None => "gpt-4o-mini".to_owned(),
    };
    let max_tokens = match max_tokens {
        Some(n) => n,
        None => 2048,
    };
    (model, max_tokens)
}

/// A chat completion to request.
pub struct ChatPlan {
    pub model: String,
    pub max_tokens: u32,
    pub parts: Vec<ContentPart>,
}

/// Plans the chat completion for a conversation: the model defaults to
/// `gpt-4o-mini` and the token limit to 1024.
pub fn plan_chat(
    model: Option<String>,
    max_tokens: Option<u32>,
    messages: &Vec<ChatApiMessage>,
    image_url: &Option<String>,
    file_name: &str,
    file_body: &str,
) -> (res: ChatPlan)
    ensures
        res.model@ == (match model {
            Some(m) => m@,
            None => "gpt-4o-mini"@,
        }),
        res.max_tokens == (match max_tokens {
            Some(n) => n,
            None => 1024,
        }),
        parts_view(res.parts@) == chat_parts(messages@, opt_view(*image_url), file_name@, file_body@),
{
    let model = match model {
        Some(m) => m,
        None => "gpt-4o-mini".to_owned(),
    };
    let max_tokens = match max_tokens {
        Some(n) => n,
        None => 1024,
    };
    let attach = !file_name.is_empty() && !file_body.is_empty() && str_contains(file_body, "base64,");
    let mut parts: Vec<ContentPart> = Vec::new();
    let n = messages.len();
    assert(messages@.take(0) =~= Seq::<ChatApiMessage>::empty());
    for i in 0..n
        invariant
            n == messages.len(),
            attach == sends_attachment(file_name@, file_body@),
            parts_view(parts@) == chat_parts(
                messages@.take(i as int),
                opt_view(*image_url),
                file_name@,
                file_body@,
            ),
    {
        let ghost before = parts_view(parts@);
        let ghost iu = opt_view(*image_url);
        match image_url {
            Some(u) => {
                if !u.as_str().is_empty() {
                    parts.push(ContentPart::ImageUrl(u.clone()));
                }
            },
            None => {},
        }
        if attach {
            parts.push(ContentPart::ImageUrl(file_body.to_owned()));
        }
        parts.push(ContentPart::Text(messages[i].content.clone()));
        proof {
            assert(messages@.take(i + 1).drop_last() =~= messages@.take(i as int));
            assert(parts_view(parts@) =~= before + message_parts(
                messages@[i as int].content@,
                iu,
                file_name@,
                file_body@,
            ));
        }
    }
    assert(messages@.take(n as int) =~= messages@);
    ChatPlan { model, max_tokens, parts }
}

} // verus!

verus! {

/// An attached file with a name and a body holding `base64,` is sent as an
/// image right before the text of every message, whatever the image URL
/// (none, empty or set): the parts of a conversation end with the body as
/// an image and then the last message's text.
pub proof fn lemma_attachment_before_each_text(
    messages: Seq<ChatApiMessage>,
    last: ChatApiMessage,
    image_url: Option<Seq<char>>,
    file_name: Seq<char>,
    file_body: Seq<char>,
)
    requires
        file_name.len() > 0,
        file_body.len() > 0,
        contains(file_body, "base64,"@),
    ensures
        ({
            let parts = chat_parts(messages.push(last), image_url, file_name, file_body);
            &&& parts.len() >= 2
            &&& parts[parts.len() - 2] == (true, file_body)
            &&& parts[parts.len() - 1] == (false, last.content@)
        }),
{
    let all = messages.push(last);
    assert(all.drop_last() =~= messages);
    assert(all.last() == last);
    let mine = message_parts(last.content@, image_url, file_name, file_body);
    let parts = chat_parts(all, image_url, file_name, file_body);
    assert(parts == chat_parts(messages, image_url, file_name, file_body) + mine);
    assert(mine.len() >= 2);
    assert(mine[mine.len() - 2] == (true, file_body));
    assert(mine[mine.len() - 1] == (false, last.content@));
    assert(parts[parts.len() - 2] == mine[mine.len() - 2]);
    assert(parts[parts.len() - 1] == mine[mine.len() - 1]);
}

/// Each message adds, after the parts of the messages before it: the image
/// URL when one is set and not empty, then the attached file's body when
/// the file has a name and a body holding `base64,` (whatever the URL),
/// then the message's text.
pub proof fn lemma_parts_of_next_message(
    messages: Seq<ChatApiMessage>,
    last: ChatApiMessage,
    image_url: Option<Seq<char>>,
    file_name: Seq<char>,
    file_body: Seq<char>,
)
    ensures
        chat_parts(messages.push(last), image_url, file_name, file_body) == chat_parts(
            messages,
            image_url,
            file_name,
            file_body,
        ) + (if image_url matches Some(u) && u.len() > 0 {
            seq![(true, image_url->0)]
        } else {
            Seq::empty()
        }) + (if file_name.len() > 0 && file_body.len() > 0 && contains(file_body, "base64,"@) {
            seq![(true, file_body)]
        } else {
            Seq::empty()
        }) + seq![(false, last.content@)],
{
    let all = messages.push(last);
    assert(all.drop_last() =~= messages);
    assert(all.last() == last);
    let url_part: Seq<(bool, Seq<char>)> = match image_url {
        Some(u) => if u.len() > 0 {
            seq![(true, u)]
        } else {
            Seq::empty()
        },
        None => Seq::empty(),
    };
    let mine = message_parts(last.content@, image_url, file_name, file_body);
    assert(chat_parts(all, image_url, file_name, file_body) == chat_parts(
        messages,
        image_url,
        file_name,
        file_body,
    ) + mine);
    let before = chat_parts(messages, image_url, file_name, file_body);
    let att: Seq<(bool, Seq<char>)> = if sends_attachment(file_name, file_body) {
        seq![(true, file_body)]
    } else {
        Seq::empty()
    };
    assert(mine == url_part + att + seq![(false, last.content@)]);
    assert(before + mine =~= before + url_part + att + seq![(false, last.content@)]);
}

} // verus!
