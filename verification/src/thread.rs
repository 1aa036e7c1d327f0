//! The messages posted to an assistant thread before a run: which texts
//! are posted, and, for every text, the image URL and the uploaded image
//! that go ahead of it.
use vstd::prelude::*;
use crate::data_url::{body_bytes, decode_file_body, FileBodyError};
use crate::models::ChatApiMessage;
use crate::text::views;

verus! {

/// Whether a thread is made or an existing one is reused.
#[derive(Debug)]
pub enum ThreadOpen {
    /// A new thread is made.
    Create,
    /// The thread with this id is retrieved; when that fails a new one is
    /// made instead (see `posts_all`).
    Retrieve(String),
}

/// A conversation without a thread id gets a new thread.
pub fn open_thread(thread_id: &str) -> (res: ThreadOpen)
    ensures
        thread_id@.len() == 0 ==> res is Create,
        thread_id@.len() > 0 ==> (res matches ThreadOpen::Retrieve(t) && t@ == thread_id@),
{
    if thread_id.is_empty() {
        ThreadOpen::Create
    } else {
        ThreadOpen::Retrieve(thread_id.to_owned())
    }
}

/// Whether the thread the run goes on is new, so that every message of
/// the conversation is posted to it: it is when one was to be made, and
/// when the thread to reuse could not be retrieved.
pub fn posts_all(open: &ThreadOpen, retrieved: bool) -> (res: bool)
    ensures
        res == (open is Create || !retrieved),
{
    match open {
        ThreadOpen::Create => true,
        ThreadOpen::Retrieve(_) => !retrieved,
    }
}

/// The texts posted to a thread: every message of the conversation when
/// the thread is new, only the last one when it already held the earlier
/// ones.
pub open spec fn posted_texts(messages: Seq<ChatApiMessage>, new_thread: bool) -> Seq<Seq<char>> {
    if new_thread {
        messages.map_values(|m: ChatApiMessage| m.content@)
    } else {
        seq![messages.last().content@]
    }
}

/// The texts to post to a thread.
pub fn thread_texts(messages: &Vec<ChatApiMessage>, new_thread: bool) -> (res: Vec<String>)
    requires
        new_thread || messages.len() > 0,
    ensures
        views(res@) == posted_texts(messages@, new_thread),
{
    let mut out: Vec<String> = Vec::new();
    if new_thread {
        let n = messages.len();
        for i in 0..n
            invariant
                n == messages.len(),
                views(out@) == messages@.take(i as int).map_values(|m: ChatApiMessage| m.content@),
        {
            let ghost before = out@;
            let c = messages[i].content.clone();
            out.push(c);
            assert(views(out@) =~= views(before).push(c@));
            assert(messages@.take(i + 1).map_values(|m: ChatApiMessage| m.content@) =~= messages@.take(
                i as int,
            ).map_values(|m: ChatApiMessage| m.content@).push(messages@[i as int].content@));
            assert(views(out@) =~= messages@.take(i + 1).map_values(
                |m: ChatApiMessage| m.content@,
            ));
        }
        assert(messages@.take(n as int) =~= messages@);
    } else {
        let last = messages.len() - 1;
        out.push(messages[last].content.clone());
        assert(views(out@) =~= seq![messages@.last().content@]);
    }
    out
}

/// One thing done on the thread before the run.
#[derive(Debug)]
pub enum ThreadStep {
    /// Post a message holding an image, by URL.
    PostImageUrl(String),
    /// Upload an image file with these bytes and post a message holding it.
    PostImageFile(Vec<u8>),
    /// Post a text message.
    PostText(String),
}

/// The spec value of a step: 0 for an image URL, 1 for an image file, 2
/// for a text, with its text or its bytes.
pub open spec fn step_view(s: ThreadStep) -> (int, Seq<char>, Seq<u8>) {
    match s {
        ThreadStep::PostImageUrl(u) => (0, u@, Seq::empty()),
        ThreadStep::PostImageFile(b) => (1, Seq::empty(), b@),
        ThreadStep::PostText(t) => (2, t@, Seq::empty()),
    }
}

/// The spec values of a list of steps.
pub open spec fn steps_view(s: Seq<ThreadStep>) -> Seq<(int, Seq<char>, Seq<u8>)> {
    s.map_values(|x: ThreadStep| step_view(x))
}

/// The image URL step, when there is an image URL.
pub open spec fn url_steps(image_url: Seq<char>) -> Seq<(int, Seq<char>, Seq<u8>)> {
    if image_url.len() > 0 {
        seq![(0, image_url, Seq::<u8>::empty())]
    } else {
        Seq::empty()
    }
}

/// The steps for one text, given the bytes of the attached image (`None`
/// when nothing is attached).
pub open spec fn text_steps(text: Seq<char>, image_url: Seq<char>, image: Option<Seq<u8>>) -> Seq<
    (int, Seq<char>, Seq<u8>),
> {
    url_steps(image_url) + (match image {
        Some(b) => seq![(1, Seq::<char>::empty(), b)],
        None => Seq::empty(),
    }) + seq![(2, text, Seq::<u8>::empty())]
}

/// The steps for all texts, text after text.
pub open spec fn all_text_steps(
    texts: Seq<Seq<char>>,
    image_url: Seq<char>,
    image: Option<Seq<u8>>,
) -> Seq<(int, Seq<char>, Seq<u8>)>
    decreases texts.len(),
{
    if texts.len() == 0 {
        Seq::empty()
    } else {
        all_text_steps(texts.drop_last(), image_url, image) + text_steps(
            texts.last(),
            image_url,
            image,
        )
    }
}

/// What is done on the thread, and the error it stops with, if any. With
/// no texts nothing is done. An attached body (`file_body`) whose bytes
/// cannot be read stops the work at the first text, after its image URL
/// step; otherwise every text gets its steps, the attached image (if any)
/// going with each.
pub open spec fn thread_plan(texts: Seq<Seq<char>>, image_url: Seq<char>, file_body: Seq<char>) -> (
    Seq<(int, Seq<char>, Seq<u8>)>,
    Option<FileBodyError>,
) {
    if texts.len() == 0 {
        (Seq::empty(), None)
    } else if file_body.len() == 0 {
        (all_text_steps(texts, image_url, None), None)
    } else {
        match body_bytes(file_body) {
            Ok(b) => (all_text_steps(texts, image_url, Some(b)), None),
            Err(e) => (url_steps(image_url), Some(e)),
        }
    }
}

/// The spec value of optional bytes.
pub open spec fn bytes_view(o: Option<Vec<u8>>) -> Option<Seq<u8>> {
    match o {
        Some(b) => Some(b@),
        None => None,
    }
}

/// Plans what is done on a thread for these texts.
pub fn plan_thread_steps(texts: &Vec<String>, image_url: &str, file_body: &str) -> (res: (
    Vec<ThreadStep>,
    Option<FileBodyError>,
))
    ensures
        (steps_view(res.0@), res.1) == thread_plan(
            views(texts@),
            image_url@,
            file_body@,
        ),
{
    let mut steps: Vec<ThreadStep> = Vec::new();
    let n = texts.len();
    if n == 0 {
        assert(steps_view(steps@) =~= Seq::empty());
        return (steps, None);
    }
    let image: Option<Vec<u8>> = if file_body.is_empty() {
        None
    } else {
        match decode_file_body(file_body) {
            Ok(b) => Some(b),
            Err(e) => {
                if !image_url.is_empty() {
                    steps.push(ThreadStep::PostImageUrl(image_url.to_owned()));
                }
                assert(steps_view(steps@) =~= url_steps(image_url@));
                return (steps, Some(e));
            },
        }
    };
    let ghost img = bytes_view(image);
    assert(views(texts@).take(0) =~= Seq::<Seq<char>>::empty());
    for i in 0..n
        invariant
            n == texts.len(),
            img == bytes_view(image),
            steps_view(steps@) == all_text_steps(views(texts@).take(i as int), image_url@, img),
    {
        let ghost before = steps_view(steps@);
        if !image_url.is_empty() {
            steps.push(ThreadStep::PostImageUrl(image_url.to_owned()));
        }
        match &image {
            Some(b) => {
                steps.push(ThreadStep::PostImageFile(b.clone()));
            },
            None => {},
        }
        steps.push(ThreadStep::PostText(texts[i].clone()));
        proof {
            assert(views(texts@).take(i + 1).drop_last() =~= views(texts@).take(i as int));
            assert(views(texts@).take(i + 1).last() == texts@[i as int]@);
            assert(steps_view(steps@) =~= before + text_steps(texts@[i as int]@, image_url@, img));
        }
    }
    assert(views(texts@).take(n as int) =~= views(texts@));
    (steps, None)
}

} // verus!

verus! {

/// When an attached body can be read, every text is posted right after an
/// image file holding its bytes, whatever the image URL: the steps for a
/// conversation end with that image file and then the last text, and no
/// error is reported.
pub proof fn lemma_image_file_before_each_text(
    texts: Seq<Seq<char>>,
    last: Seq<char>,
    image_url: Seq<char>,
    file_body: Seq<char>,
    bytes: Seq<u8>,
)
    requires
        file_body.len() > 0,
        body_bytes(file_body) == Ok::<Seq<u8>, FileBodyError>(bytes),
    ensures
        ({
            let plan = thread_plan(texts.push(last), image_url, file_body);
            &&& plan.1 is None
            &&& plan.0.len() >= 2
            &&& plan.0[plan.0.len() - 2] == (1int, Seq::<char>::empty(), bytes)
            &&& plan.0[plan.0.len() - 1] == (2int, last, Seq::<u8>::empty())
        }),
{
    let all = texts.push(last);
    assert(all.drop_last() =~= texts);
    assert(all.last() == last);
    let mine = text_steps(last, image_url, Some(bytes));
    let steps = all_text_steps(all, image_url, Some(bytes));
    assert(steps == all_text_steps(texts, image_url, Some(bytes)) + mine);
    assert(mine.len() >= 2);
    assert(mine[mine.len() - 2] == (1int, Seq::<char>::empty(), bytes));
    assert(mine[mine.len() - 1] == (2int, last, Seq::<u8>::empty()));
    assert(steps[steps.len() - 2] == mine[mine.len() - 2]);
    assert(steps[steps.len() - 1] == mine[mine.len() - 1]);
}

/// Whether an attached body can be read, and the error it stops with when
/// it cannot, never depend on the image URL.
pub proof fn lemma_body_error_ignores_image_url(
    texts: Seq<Seq<char>>,
    url_a: Seq<char>,
    url_b: Seq<char>,
    file_body: Seq<char>,
)
    requires
        texts.len() > 0,
    ensures
        thread_plan(texts, url_a, file_body).1 == thread_plan(texts, url_b, file_body).1,
        thread_plan(texts, url_a, file_body).1 == (if file_body.len() == 0 {
            None
        } else {
            match body_bytes(file_body) {
                Ok(_) => None::<FileBodyError>,
                Err(e) => Some(e),
            }
        }),
{
}

/// Each text adds, after the steps for the texts before it: the image URL
/// when it is not empty, then, when a body is attached and its bytes can
/// be read, an image file with those bytes, then the text. A body whose
/// bytes cannot be read stops the work with its error after the image URL
/// step of the first text, however many texts there are.
pub proof fn lemma_steps_of_next_text(
    texts: Seq<Seq<char>>,
    last: Seq<char>,
    image_url: Seq<char>,
    file_body: Seq<char>,
)
    ensures
        ({
            let before = thread_plan(texts, image_url, file_body);
            let after = thread_plan(texts.push(last), image_url, file_body);
            let url = if image_url.len() > 0 {
                seq![(0int, image_url, Seq::<u8>::empty())]
            } else {
                Seq::empty()
            };
            &&& file_body.len() == 0 ==> after == (
                before.0 + url + seq![(2int, last, Seq::<u8>::empty())],
                None::<FileBodyError>,
            )
            &&& file_body.len() > 0 ==> match body_bytes(file_body) {
                Ok(b) => after == (
                    before.0 + url + seq![
                        (1int, Seq::<char>::empty(), b),
                        (2int, last, Seq::<u8>::empty()),
                    ],
                    None::<FileBodyError>,
                ),
                Err(e) => after == (url, Some(e)),
            }
        }),
{
    let all = texts.push(last);
    assert(all.drop_last() =~= texts);
    assert(all.last() == last);
    assert(all.len() > 0);
    let url = url_steps(image_url);
    if file_body.len() == 0 {
        let mine = text_steps(last, image_url, None);
        assert(mine =~= url + seq![(2int, last, Seq::<u8>::empty())]);
        if texts.len() == 0 {
            assert(all_text_steps(texts, image_url, None) =~= Seq::empty());
        }
        assert(all_text_steps(all, image_url, None) == all_text_steps(texts, image_url, None) + mine);
        assert(all_text_steps(all, image_url, None) =~= all_text_steps(texts, image_url, None) + url
            + seq![(2int, last, Seq::<u8>::empty())]);
    } else if let Ok(b) = body_bytes(file_body) {
        let mine = text_steps(last, image_url, Some(b));
        assert(mine =~= url + seq![(1int, Seq::<char>::empty(), b), (2int, last, Seq::<u8>::empty())]);
        if texts.len() == 0 {
            assert(all_text_steps(texts, image_url, Some(b)) =~= Seq::empty());
        }
        assert(all_text_steps(all, image_url, Some(b)) == all_text_steps(texts, image_url, Some(b))
            + mine);
        assert(all_text_steps(all, image_url, Some(b)) =~= all_text_steps(texts, image_url, Some(b))
            + url + seq![(1int, Seq::<char>::empty(), b), (2int, last, Seq::<u8>::empty())]);
    }
}

} // verus!
