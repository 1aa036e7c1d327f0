//! The records the client keeps on disk and shows: chat messages, uploaded
//! files, vector stores and conversation titles.
use vstd::prelude::*;
use crate::outside::{
    format_utc_millis, format_utc_nanos, markdown_html, markdown_to_html, utc_millis_text,
    utc_nanos_text,
};
use crate::text::opt_view;

verus! {

/// One message of a chat: who wrote it and what it says.
#[derive(Debug)]
pub struct ChatApiMessage {
    pub role: String,
    pub content: String,
}

/// A chat message together with its content rendered as HTML.
#[derive(Debug)]
pub struct ChatApiMessageWithHtml {
    pub role: String,
    pub content: String,
    pub content_html: Option<String>,
}

impl ChatApiMessage {
    /// The same message, not rendered yet.
    pub fn convert_with_html(&self) -> (res: ChatApiMessageWithHtml)
        ensures
            res.role@ == self.role@,
            res.content@ == self.content@,
            res.content_html is None,
    {
        ChatApiMessageWithHtml {
            role: self.role.clone(),
            content: self.content.clone(),
            content_html: None,
        }
    }
}

/// Renders the content of every message as HTML, keeping role and content.
pub fn attach_html(messages: Vec<ChatApiMessageWithHtml>) -> (res: Vec<ChatApiMessageWithHtml>)
    ensures
        res.len() == messages.len(),
        forall|i: int|
            0 <= i < res.len() ==> {
                &&& (#[trigger] res[i]).role@ == messages[i].role@
                &&& res[i].content@ == messages[i].content@
                &&& opt_view(res[i].content_html) == Some(markdown_html(messages[i].content@))
            },
{
    let mut out: Vec<ChatApiMessageWithHtml> = Vec::new();
    let n = messages.len();
    for i in 0..n
        invariant
            n == messages.len(),
            out.len() == i,
            forall|j: int|
                0 <= j < i ==> {
                    &&& (#[trigger] out[j]).role@ == messages[j].role@
                    &&& out[j].content@ == messages[j].content@
                    &&& opt_view(out[j].content_html) == Some(markdown_html(messages[j].content@))
                },
    {
        let m = &messages[i];
        let html = markdown_to_html(m.content.as_str());
        out.push(
            ChatApiMessageWithHtml {
                role: m.role.clone(),
                content: m.content.clone(),
                content_html: Some(html),
            },
        );
    }
    out
}

// ---------------------------------------------------------------------
// Files and vector stores
// ---------------------------------------------------------------------

/// A file uploaded to OpenAI, as recorded on disk.
#[derive(Debug)]
pub struct OpenAIFileData {
    pub id: Option<String>,
    pub filename: Option<String>,
    pub purpose: Option<String>,
    pub bytes: Option<i64>,
    pub time: Option<String>,
}

impl Default for OpenAIFileData {
    fn default() -> (r: Self)
        ensures
            r.id is None,
            r.filename is None,
            r.purpose is None,
            r.bytes is None,
            r.time is None,
    {
        OpenAIFileData { id: None, filename: None, purpose: None, bytes: None, time: None }
    }
}

/// A vector store made on OpenAI, as recorded on disk.
#[derive(Debug)]
pub struct OpenAIVectorData {
    pub id: Option<String>,
    pub name: Option<String>,
    pub usage_bytes: Option<i64>,
    pub created: Option<i64>,
    pub time: Option<String>,
}

impl Default for OpenAIVectorData {
    fn default() -> (r: Self)
        ensures
            r.id is None,
            r.name is None,
            r.usage_bytes is None,
            r.created is None,
            r.time is None,
    {
        OpenAIVectorData { id: None, name: None, usage_bytes: None, created: None, time: None }
    }
}

/// The record of an uploaded file as listed: an empty record file
/// (`None`) stands for a record with no fields; the listing time is the
/// time the record file was last modified, and the id defaults to the
/// name of the record file.
pub fn listed_file_data(parsed: Option<OpenAIFileData>, file_name: String, modified_nanos: i64) -> (res:
    OpenAIFileData)
    ensures
        parsed matches Some(d) ==> {
            &&& opt_view(res.id) == (if d.id is Some {
                opt_view(d.id)
            } else {
                Some(file_name@)
            })
            &&& res.filename == d.filename
            &&& res.purpose == d.purpose
            &&& res.bytes == d.bytes
        },
        parsed is None ==> {
            &&& opt_view(res.id) == Some(file_name@)
            &&& res.filename is None
            &&& res.purpose is None
            &&& res.bytes is None
        },
        opt_view(res.time) == Some(utc_nanos_text(modified_nanos)),
{
    let mut data = match parsed {
        Some(d) => d,
        None => OpenAIFileData::default(),
    };
    data.time = Some(format_utc_nanos(modified_nanos));
    if data.id.is_none() {
        data.id = Some(file_name);
    }
    data
}

/// `created * 1000` fits in an `i64`.
pub open spec fn created_in_range(created: Option<i64>) -> bool {
    created matches Some(c) ==> i64::MIN <= c * 1000 <= i64::MAX
}

/// The record of a vector store as listed: an empty record file (`None`)
/// stands for a record with no fields. The listing time is the creation
/// time (seconds) when the record has one and `chrono` can hold it, the
/// time already recorded when it cannot, and the time the record file was
/// last modified when there is no creation time; the id defaults to the
/// name of the record file.
pub fn listed_vector_data(
    parsed: Option<OpenAIVectorData>,
    file_name: String,
    modified_nanos: i64,
) -> (res: OpenAIVectorData)
    requires
        parsed matches Some(d) ==> created_in_range(d.created),
    ensures
        parsed matches Some(d) ==> {
            &&& opt_view(res.id) == (if d.id is Some {
                opt_view(d.id)
            } else {
                Some(file_name@)
            })
            &&& res.name == d.name
            &&& res.usage_bytes == d.usage_bytes
            &&& res.created == d.created
            &&& opt_view(res.time) == (match d.created {
                None => Some(utc_nanos_text(modified_nanos)),
                Some(c) => match utc_millis_text((c * 1000) as i64) {
                    Some(t) => Some(t),
                    None => opt_view(d.time),
                },
            })
        },
        parsed is None ==> {
            &&& opt_view(res.id) == Some(file_name@)
            &&& res.name is None
            &&& res.usage_bytes is None
            &&& res.created is None
            &&& opt_view(res.time) == Some(utc_nanos_text(modified_nanos))
        },
{
    let mut data = match parsed {
        Some(d) => d,
        None => OpenAIVectorData::default(),
    };
    match data.created {
        None => {
            data.time = Some(format_utc_nanos(modified_nanos));
        },
        Some(c) => {
            if let Some(t) = format_utc_millis(c * 1000) {
                data.time = Some(t);
            }
        },
    }
    if data.id.is_none() {
        data.id = Some(file_name);
    }
    data
}

// ---------------------------------------------------------------------
// Conversation titles
// ---------------------------------------------------------------------

/// A saved conversation as listed: its id, its title and when the title
/// was last written.
#[derive(Debug)]
pub struct TitleData {
    pub id: String,
    pub name: String,
    pub time: String,
}

/// The listing entry of a conversation whose title file is `id`, holds
/// `name` and was last modified `modified_nanos` after the epoch.
pub fn title_entry(id: String, name: String, modified_nanos: i64) -> (res: TitleData)
    ensures
        res.id@ == id@,
        res.name@ == name@,
        res.time@ == utc_nanos_text(modified_nanos),
{
    TitleData { id, name, time: format_utc_nanos(modified_nanos) }
}

} // verus!
