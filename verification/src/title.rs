//! Titles of saved conversations: which text a title is made from, whether
//! the model is asked to shorten it, and how its answer is cleaned.
use vstd::prelude::*;
use vstd::utf8::encode_utf8;
use crate::models::ChatApiMessage;
use crate::text::{
    concat_str, contains, lemma_filter_keeps_only, lemma_remove_all_absent, lemma_remove_char,
    lemma_trim_keeps_chars, other_than, remove_all, str_remove_all, str_trim, trim,
};

verus! {

/// The instruction sent ahead of the text a title is asked for.
pub open spec fn title_instruction() -> Seq<char> {
    "Give it a simple title bellow text by own language. *Conditions=[Length<=20]. text>"@
}

/// The request text that asks the model for a title of `sentence`.
pub fn title_prompt(sentence: &str) -> (res: String)
    ensures
        res@ == title_instruction() + sentence@,
{
    concat_str(
        "Give it a simple title bellow text by own language. *Conditions=[Length<=20]. text>",
        sentence,
    )
}

/// The model and the token limit of a title request: `gpt-4o-mini` and
/// 1024 tokens.
pub fn title_request_settings() -> (res: (String, u32))
    ensures
        res.0@ == "gpt-4o-mini"@,
        res.1 == 1024,
{
    ("gpt-4o-mini".to_owned(), 1024)
}

/// The title text of a conversation: the content of its first message
/// written by the user or the assistant, or nothing.
pub open spec fn title_source(messages: Seq<ChatApiMessage>) -> Seq<char>
    decreases messages.len(),
{
    if messages.len() == 0 {
        Seq::<char>::empty()
    } else if messages[0].role@ == "user"@ || messages[0].role@ == "assistant"@ {
        messages[0].content@
    } else {
        title_source(messages.drop_first())
    }
}

/// How the title of a saved conversation is made.
pub enum TitlePlan {
    /// The text is longer than 30 bytes: the model is asked for a title.
    AskModel(String),
    /// The text is short enough to be the title itself.
    UseAsIs(String),
}

/// Whether a title text is handed to the model: when its length in UTF-8
/// bytes, as `str::len` reports it, exceeds 30.
pub open spec fn asks_model(text: Seq<char>) -> bool {
    (encode_utf8(text).len() as usize) > 30
}

/// The title text of a conversation with these messages.
pub fn title_text(messages: &Vec<ChatApiMessage>) -> (res: String)
    ensures
        res@ == title_source(messages@),
{
    let user = "user".to_owned();
    let assistant = "assistant".to_owned();
    let n = messages.len();
    let mut i: usize = 0;
    assert(messages@.skip(0) =~= messages@);
    while i < n
        invariant
            n == messages.len(),
            user@ == "user"@,
            assistant@ == "assistant"@,
            i <= n,
            title_source(messages@) == title_source(messages@.skip(i as int)),
        decreases n - i,
    {
        assert(messages@.skip(i as int).drop_first() =~= messages@.skip(i + 1));
        let m = &messages[i];
        if m.role == user || m.role == assistant {
            return m.content.clone();
        }
        i = i + 1;
    }
    assert(messages@.skip(i as int).len() == 0);
    String::new()
}

/// Decides how the title of a conversation with these messages is made.
pub fn plan_title(messages: &Vec<ChatApiMessage>) -> (res: TitlePlan)
    ensures
        match res {
            TitlePlan::AskModel(t) => t@ == title_source(messages@) && asks_model(t@),
            TitlePlan::UseAsIs(t) => t@ == title_source(messages@) && !asks_model(t@),
        },
{
    let source = title_text(messages);
    if source.as_str().len() > 30 {
        TitlePlan::AskModel(source)
    } else {
        TitlePlan::UseAsIs(source)
    }
}

/// A title as answered by the model, cleaned: every `Title:`, `「`, `」`,
/// `。` and `"` removed in that order, then white space trimmed.
pub open spec fn cleaned_title(raw: Seq<char>) -> Seq<char> {
    trim(
        remove_all(
            remove_all(
                remove_all(remove_all(remove_all(raw, "Title:"@), "「"@), "」"@),
                "。"@,
            ),
            "\""@,
        ),
    )
}

/// Cleans a title answered by the model.
pub fn clean_title(raw: &str) -> (res: String)
    ensures
        res@ == cleaned_title(raw@),
{
    let a = str_remove_all(raw, "Title:");
    let b = str_remove_all(a.as_str(), "「");
    let c = str_remove_all(b.as_str(), "」");
    let d = str_remove_all(c.as_str(), "。");
    let e = str_remove_all(d.as_str(), "\"");
    str_trim(e.as_str())
}

/// Why no title came back.
#[derive(Debug, PartialEq, Eq)]
pub enum TitleError {
    /// The service answered with another status than 200, or with a body
    /// that is no JSON.
    ServerError,
}

/// The title made from the model's answer: `content` is the answer's
/// first choice when the body was JSON, `None` when it was not.
pub fn title_from_response(status: u16, content: Option<String>) -> (res: Result<String, TitleError>)
    ensures
        match res {
            Ok(t) => status == 200 && content is Some && t@ == cleaned_title(content->0@),
            Err(e) => e == TitleError::ServerError && (status != 200 || content is None),
        },
{
    if status == 200 {
        match content {
            Some(c) => Ok(clean_title(c.as_str())),
            None => Err(TitleError::ServerError),
        }
    } else {
        Err(TitleError::ServerError)
    }
}

} // verus!

verus! {

/// A title answer that holds none of the marks that are removed is kept
/// whole, only trimmed: nothing is cut, whatever its length; the same holds
/// when the answer starts with `Title:`.
pub proof fn lemma_plain_title_is_kept(x: Seq<char>)
    requires
        !contains(x, "Title:"@),
        !contains(x, "「"@),
        !contains(x, "」"@),
        !contains(x, "。"@),
        !contains(x, "\""@),
    ensures
        cleaned_title(x) == trim(x),
        cleaned_title("Title:"@ + x) == trim(x),
        cleaned_title(x).len() == trim(x).len(),
{
    reveal_strlit("Title:");
    lemma_remove_all_absent(x, "Title:"@);
    lemma_remove_all_absent(x, "「"@);
    lemma_remove_all_absent(x, "」"@);
    lemma_remove_all_absent(x, "。"@);
    lemma_remove_all_absent(x, "\""@);
    let t = "Title:"@ + x;
    assert(t.take(6) =~= "Title:"@);
    assert(t.skip(6) =~= x);
    assert(remove_all(t, "Title:"@) == x);
}

/// The cleaned title is the answer with every `Title:` removed, every
/// `「`, `」`, `。` and `"` dropped wherever it stands and the rest kept in
/// order, then trimmed; none of those four marks is left in it.
pub proof fn lemma_title_marks_dropped(raw: Seq<char>)
    ensures
        cleaned_title(raw) == trim(
            remove_all(raw, "Title:"@).filter(other_than('「')).filter(other_than('」')).filter(
                other_than('。'),
            ).filter(other_than('"')),
        ),
        forall|i: int|
            0 <= i < cleaned_title(raw).len() ==> {
                let c = #[trigger] cleaned_title(raw)[i];
                c != '「' && c != '」' && c != '。' && c != '"'
            },
{
    reveal_strlit("「");
    reveal_strlit("」");
    reveal_strlit("。");
    reveal_strlit("\"");
    assert("「"@ =~= seq!['「']);
    assert("」"@ =~= seq!['」']);
    assert("。"@ =~= seq!['。']);
    assert("\""@ =~= seq!['"']);
    let a = remove_all(raw, "Title:"@);
    lemma_remove_char(a, '「');
    let f1 = a.filter(other_than('「'));
    lemma_remove_char(f1, '」');
    let f2 = f1.filter(other_than('」'));
    lemma_remove_char(f2, '。');
    let f3 = f2.filter(other_than('。'));
    lemma_remove_char(f3, '"');
    let f4 = f3.filter(other_than('"'));
    let q0 = |c: char| true;
    let q1 = |c: char| c != '「';
    let q2 = |c: char| c != '「' && c != '」';
    let q3 = |c: char| c != '「' && c != '」' && c != '。';
    lemma_filter_keeps_only(a, other_than('「'), q0);
    lemma_filter_keeps_only(f1, other_than('」'), q1);
    lemma_filter_keeps_only(f2, other_than('。'), q2);
    lemma_filter_keeps_only(f3, other_than('"'), q3);
    lemma_trim_keeps_chars(f4);
    let t = cleaned_title(raw);
    assert forall|i: int| 0 <= i < t.len() implies {
        let c = #[trigger] t[i];
        c != '「' && c != '」' && c != '。' && c != '"'
    } by {
        assert(f4.contains(trim(f4)[i]));
        let j = choose|j: int| 0 <= j < f4.len() && f4[j] == trim(f4)[i];
        assert(q3(f4[j]) && other_than('"')(f4[j]));
    }
}

} // verus!
