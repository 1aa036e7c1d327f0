//! Conversation identifiers.
//!
//! A conversation that was held with an assistant is saved under the key
//! `thread_id + assistant_id` (for example `thread_abc` followed by
//! `asst_xyz`); the key is split again when the conversation is deleted, so
//! that the remote thread can be deleted too.
use vstd::prelude::*;
use crate::text::{
    concat_str, contains, glue, opt_view, lemma_find, lemma_split_all_nonempty, lemma_split_prefix,
    split_all, starts_with, str_split_all, str_starts_with, views,
};

verus! {

broadcast use vstd::string::group_string_axioms;

/// The prefix of every thread id.
pub open spec fn thread_prefix() -> Seq<char> {
    seq!['t', 'h', 'r', 'e', 'a', 'd', '_']
}

/// The prefix of every assistant id.
pub open spec fn asst_prefix() -> Seq<char> {
    seq!['a', 's', 's', 't', '_']
}

/// The thread id and the assistant id held in a conversation key: the key
/// is split at every `thread_`, the second piece is split at every
/// `asst_`, and the first two of those pieces (the second one empty when
/// missing) get their prefixes back. A key that does not start with
/// `thread_` holds neither.
pub open spec fn thread_and_assistant(id: Seq<char>) -> (Seq<char>, Seq<char>) {
    if starts_with(id, thread_prefix()) {
        let parts = split_all(id, thread_prefix());
        let tmp = split_all(parts[1], asst_prefix());
        (
            thread_prefix() + tmp[0],
            asst_prefix() + (if tmp.len() >= 2 {
                tmp[1]
            } else {
                Seq::<char>::empty()
            }),
        )
    } else {
        (Seq::<char>::empty(), Seq::<char>::empty())
    }
}

fn thread_prefix_str() -> (s: &'static str)
    ensures
        s@ == thread_prefix(),
{
    let s = "thread_";
    proof {
        reveal_strlit("thread_");
        assert(s@ =~= thread_prefix());
    }
    s
}

fn asst_prefix_str() -> (s: &'static str)
    ensures
        s@ == asst_prefix(),
{
    let s = "asst_";
    proof {
        reveal_strlit("asst_");
        assert(s@ =~= asst_prefix());
    }
    s
}

/// Whether `id` names a conversation held in an assistant thread.
pub fn is_thread(id: &str) -> (res: bool)
    ensures
        res == starts_with(id@, thread_prefix()),
{
    str_starts_with(id, thread_prefix_str())
}

/// Splits a conversation key into its thread id and assistant id; both
/// are empty when the key is no thread key.
pub fn get_thread_and_assistant_id(id: &str) -> (res: (String, String))
    ensures
        (res.0@, res.1@) == thread_and_assistant(id@),
{
    let tp = thread_prefix_str();
    let ap = asst_prefix_str();
    if str_starts_with(id, tp) {
        let parts = str_split_all(id, tp);
        proof {
            assert(split_all(id@, thread_prefix()) == seq![Seq::<char>::empty()] + split_all(
                id@.skip(7),
                thread_prefix(),
            ));
            lemma_split_all_nonempty(id@.skip(7), thread_prefix());
            assert(views(parts@)[1] == parts@[1]@);
        }
        let tmp = str_split_all(&parts[1], ap);
        proof {
            lemma_split_all_nonempty(parts@[1]@, asst_prefix());
            assert(views(tmp@)[0] == tmp@[0]@);
        }
        let thread_id = concat_str(tp, &tmp[0]);
        let assistant_id = if tmp.len() >= 2 {
            assert(views(tmp@)[1] == tmp@[1]@);
            concat_str(ap, &tmp[1])
        } else {
            ap.to_owned()
        };
        assert(assistant_id@ =~= thread_and_assistant(id@).1);
        (thread_id, assistant_id)
    } else {
        (String::new(), String::new())
    }
}

// ---------------------------------------------------------------------
// The key under which a conversation is saved
// ---------------------------------------------------------------------

/// What becomes of the remote thread of a conversation that is saved.
pub enum ThreadRetention {
    /// The thread is kept; the conversation is saved under this key.
    Keep(String),
    /// The thread is not wanted any more and is deleted remotely.
    Discard(String),
    /// The conversation has no thread.
    NoThread,
}

/// The value of a non-empty option.
pub open spec fn non_empty(o: Option<Seq<char>>) -> Option<Seq<char>> {
    match o {
        Some(s) => if s.len() > 0 {
            Some(s)
        } else {
            None
        },
        None => None,
    }
}

/// The saved key of a kept thread: the thread id followed by the
/// assistant id when there is one.
pub open spec fn thread_key(thread_id: Seq<char>, assistant_id: Option<Seq<char>>) -> Seq<char> {
    match non_empty(assistant_id) {
        Some(a) => thread_id + a,
        None => thread_id,
    }
}

/// What happens to the thread of a saved conversation: with no (or an
/// empty) thread id there is none; it is kept when `save_thread` is
/// `Some(true)`, and discarded otherwise.
pub open spec fn retention(
    thread_id: Option<Seq<char>>,
    assistant_id: Option<Seq<char>>,
    save_thread: Option<bool>,
) -> (int, Seq<char>) {
    match non_empty(thread_id) {
        None => (0, Seq::<char>::empty()),
        Some(t) => if save_thread == Some(true) {
            (1, thread_key(t, assistant_id))
        } else {
            (2, t)
        },
    }
}

/// The spec value of a retention decision: 0 for none, 1 for keep, 2 for
/// discard, with its string.
pub open spec fn retention_view(r: ThreadRetention) -> (int, Seq<char>) {
    match r {
        ThreadRetention::NoThread => (0, Seq::<char>::empty()),
        ThreadRetention::Keep(k) => (1, k@),
        ThreadRetention::Discard(t) => (2, t@),
    }
}

/// Decides what becomes of the thread of a conversation being saved.
pub fn retain_thread(
    thread_id: Option<String>,
    assistant_id: Option<String>,
    save_thread: Option<bool>,
) -> (res: ThreadRetention)
    ensures
        retention_view(res) == retention(opt_view(thread_id), opt_view(assistant_id), save_thread),
{
    match thread_id {
        Some(t) if !t.as_str().is_empty() => {
            if save_thread == Some(true) {
                match assistant_id {
                    Some(a) if !a.as_str().is_empty() => {
                        proof {
                            assert(a@.len() > 0) by {
                                if a@.len() == 0 {
                                    assert(a@ =~= Seq::<char>::empty());
                                }
                            }
                        }
                        ThreadRetention::Keep(concat_str(&t, &a))
                    },
                    _ => {
                        proof {
                            if let Some(a) = assistant_id {
                                assert(a@.len() == 0);
                            }
                        }
                        ThreadRetention::Keep(t)
                    },
                }
            } else {
                ThreadRetention::Discard(t)
            }
        },
        _ => {
            proof {
                if let Some(t) = thread_id {
                    assert(t@.len() == 0);
                }
            }
            ThreadRetention::NoThread
        },
    }
}

/// The id under which a conversation is saved: the key of a kept thread,
/// else the id the conversation already has, else `fresh`.
pub open spec fn conversation_id(key: Seq<char>, id: Option<Seq<char>>, fresh: Seq<char>) -> Seq<
    char,
> {
    if key.len() > 0 {
        key
    } else {
        match id {
            Some(i) => i,
            None => fresh,
        }
    }
}

/// Chooses the id under which a conversation is saved.
pub fn pick_conversation_id(key: String, id: Option<String>, fresh: String) -> (res: String)
    ensures
        res@ == conversation_id(key@, opt_view(id), fresh@),
{
    if !key.as_str().is_empty() {
        proof {
            if key@.len() == 0 {
                assert(key@ =~= Seq::<char>::empty());
            }
        }
        key
    } else {
        match id {
            Some(i) => i,
            None => fresh,
        }
    }
}

/// A lowercase hexadecimal digit.
pub open spec fn is_lower_hex(c: char) -> bool {
    ('0' as int <= c as int <= '9' as int) || ('a' as int <= c as int <= 'f' as int)
}

/// The text of a version-4 UUID of the RFC 4122 variant, hyphenated and in
/// lowercase: 36 characters, hyphens at 8, 13, 18 and 23, hexadecimal
/// digits elsewhere, the version digit `4` at 14 and one of `8`, `9`, `a`,
/// `b` at 19.
pub open spec fn uuid_v4_text(s: Seq<char>) -> bool {
    &&& s.len() == 36
    &&& forall|i: int|
        0 <= i < 36 ==> if i == 8 || i == 13 || i == 18 || i == 23 {
            #[trigger] s[i] == '-'
        } else {
            is_lower_hex(s[i])
        }
    &&& s[14] == '4'
    &&& (s[19] == '8' || s[19] == '9' || s[19] == 'a' || s[19] == 'b')
}

/// A UUID text is no thread key: it starts with a hexadecimal digit, not
/// with `thread_`.
pub proof fn lemma_uuid_is_no_thread_key(s: Seq<char>)
    requires
        uuid_v4_text(s),
    ensures
        !starts_with(s, thread_prefix()),
{
    assert(is_lower_hex(s[0]));
    if starts_with(s, thread_prefix()) {
        assert(s.take(7)[0] == s[0]);
        assert(thread_prefix()[0] == 't');
    }
}

/// Chooses the id under which a conversation is saved, drawing a fresh
/// random UUID only when neither a kept thread nor an earlier id gives one.
/// Such a UUID is never taken for a thread key.
pub fn resolve_conversation_id(key: String, id: Option<String>) -> (res: String)
    ensures
        key@.len() > 0 ==> res@ == key@,
        key@.len() == 0 && id is Some ==> res@ == id->0@,
        key@.len() == 0 && id is None ==> uuid_v4_text(res@) && !starts_with(res@, thread_prefix()),
{
    if !key.as_str().is_empty() {
        key
    } else {
        match id {
            Some(i) => i,
            None => {
                let fresh = crate::outside::new_uuid_v4();
                proof {
                    lemma_uuid_is_no_thread_key(fresh@);
                }
                fresh
            },
        }
    }
}

// ---------------------------------------------------------------------
// The key splits back into the ids it was made of
// ---------------------------------------------------------------------

/// No occurrence of `p` starts anywhere in `s`.
proof fn lemma_no_occurrence(s: Seq<char>, p: Seq<char>)
    requires
        !contains(s, p),
    ensures
        forall|j: int| 0 <= j <= s.len() ==> !starts_with(#[trigger] s.skip(j), p),
{
    lemma_find(s, p);
}

/// A string in which `p` starts nowhere is a single piece.
proof fn lemma_split_single(s: Seq<char>, p: Seq<char>)
    requires
        p.len() > 0,
        forall|j: int| 0 <= j < s.len() ==> !starts_with(#[trigger] s.skip(j), p),
    ensures
        split_all(s, p) == seq![s],
{
    let e = Seq::<char>::empty();
    assert(s + e =~= s);
    lemma_split_prefix(s, e, p);
    assert(glue(s, seq![e]) =~= seq![s]);
}

/// `p` occurring at `j` inside `x` when the window lies inside `x`.
proof fn lemma_window_in_prefix(x: Seq<char>, y: Seq<char>, p: Seq<char>, j: int)
    requires
        0 <= j,
        j + p.len() <= x.len(),
        starts_with((x + y).skip(j), p),
    ensures
        starts_with(x.skip(j), p),
{
    assert((x + y).skip(j).take(p.len() as int) =~= x.skip(j).take(p.len() as int));
}

/// `p` occurring at `j` inside `y` when the window lies inside `y`.
proof fn lemma_window_in_suffix(x: Seq<char>, y: Seq<char>, p: Seq<char>, j: int)
    requires
        x.len() <= j <= x.len() + y.len(),
        starts_with((x + y).skip(j), p),
    ensures
        starts_with(y.skip(j - x.len()), p),
{
    assert((x + y).skip(j) =~= y.skip(j - x.len()));
}

/// `thread_` starts nowhere in `t + asst_ + a` when it occurs in neither
/// `t` nor `a`.
proof fn lemma_no_thread_in_key(t: Seq<char>, a: Seq<char>)
    requires
        !contains(t, thread_prefix()),
        !contains(a, thread_prefix()),
    ensures
        forall|j: int|
            0 <= j <= (t + asst_prefix() + a).len() ==> !starts_with(
                #[trigger] (t + asst_prefix() + a).skip(j),
                thread_prefix(),
            ),
{
    let p = thread_prefix();
    let ap = asst_prefix();
    let s = t + ap + a;
    lemma_no_occurrence(t, p);
    lemma_no_occurrence(a, p);
    assert forall|j: int| 0 <= j <= s.len() implies !starts_with(#[trigger] s.skip(j), p) by {
        if starts_with(s.skip(j), p) {
            let w = s.skip(j).take(7);
            assert(w == p);
            assert(s == t + (ap + a));
            if j + 7 <= t.len() {
                lemma_window_in_prefix(t, ap + a, p, j);
            } else if j >= t.len() + 5 {
                assert(s == (t + ap) + a);
                lemma_window_in_suffix(t + ap, a, p, j);
            } else if j < t.len() {
                let o = t.len() - j;
                assert(s[t.len() as int] == 'a');
                assert(s[t.len() as int + 1] == 's');
                assert(w[o] == s[t.len() as int]);
                if o == 4 {
                    assert(w[5] == s[t.len() as int + 1]);
                }
            } else {
                let o = j - t.len();
                assert(w[0] == s[j]);
                assert(s[j] == ap[o]);
                if o == 3 {
                    assert(w[1] == s[j + 1]);
                    assert(s[j + 1] == ap[4]);
                }
            }
        }
    }
}

/// `asst_` starts nowhere in `t + asst_ + a` before the end of `t`.
proof fn lemma_no_asst_before(t: Seq<char>, a: Seq<char>)
    requires
        !contains(t, asst_prefix()),
    ensures
        forall|j: int|
            0 <= j < t.len() ==> !starts_with(
                #[trigger] (t + (asst_prefix() + a)).skip(j),
                asst_prefix(),
            ),
{
    let p = asst_prefix();
    let s = t + (p + a);
    lemma_no_occurrence(t, p);
    assert forall|j: int| 0 <= j < t.len() implies !starts_with(#[trigger] s.skip(j), p) by {
        if starts_with(s.skip(j), p) {
            let w = s.skip(j).take(5);
            assert(w == p);
            if j + 5 <= t.len() {
                lemma_window_in_prefix(t, p + a, p, j);
            } else {
                let o = t.len() - j;
                assert(s[t.len() as int] == 'a');
                assert(w[o] == s[t.len() as int]);
            }
        }
    }
}

/// Splitting a key made of a thread id and an assistant id gives back
/// both ids, provided neither id holds a further `thread_` or `asst_`.
pub proof fn lemma_key_splits_into_ids(t: Seq<char>, a: Seq<char>)
    requires
        !contains(t, thread_prefix()),
        !contains(t, asst_prefix()),
        !contains(a, thread_prefix()),
        !contains(a, asst_prefix()),
    ensures
        thread_and_assistant(thread_prefix() + t + asst_prefix() + a) == (
            thread_prefix() + t,
            asst_prefix() + a,
        ),
{
    let tp = thread_prefix();
    let ap = asst_prefix();
    let rest = t + ap + a;
    let key = tp + t + ap + a;
    assert(key =~= tp + rest);
    assert(key.take(7) =~= tp);
    assert(key.skip(7) =~= rest);
    lemma_split_all_nonempty(rest, tp);
    assert(split_all(key, tp) == seq![Seq::<char>::empty()] + split_all(rest, tp));
    lemma_no_thread_in_key(t, a);
    lemma_split_single(rest, tp);
    assert(split_all(key, tp)[1] == rest);
    assert(rest =~= t + (ap + a));
    lemma_no_asst_before(t, a);
    lemma_split_prefix(t, ap + a, ap);
    assert((ap + a).take(5) =~= ap);
    assert((ap + a).skip(5) =~= a);
    lemma_split_all_nonempty(a, ap);
    assert(split_all(ap + a, ap) == seq![Seq::<char>::empty()] + split_all(a, ap));
    lemma_no_occurrence(a, ap);
    lemma_split_single(a, ap);
    let tmp = split_all(rest, ap);
    assert(tmp =~= seq![t, a]) by {
        assert(glue(t, seq![Seq::<char>::empty(), a]) =~= seq![t, a]);
        assert(seq![Seq::<char>::empty()] + seq![a] =~= seq![Seq::<char>::empty(), a]);
    }
}

/// A key made of a thread id alone splits into that thread id and an
/// assistant id that is just `asst_`, provided the thread id holds no
/// further `thread_` or `asst_`.
pub proof fn lemma_thread_only_key_splits(t: Seq<char>)
    requires
        !contains(t, thread_prefix()),
        !contains(t, asst_prefix()),
    ensures
        thread_and_assistant(thread_prefix() + t) == (thread_prefix() + t, asst_prefix()),
{
    let tp = thread_prefix();
    let ap = asst_prefix();
    let key = tp + t;
    assert(key.take(7) =~= tp);
    assert(key.skip(7) =~= t);
    lemma_split_all_nonempty(t, tp);
    assert(split_all(key, tp) == seq![Seq::<char>::empty()] + split_all(t, tp));
    lemma_no_occurrence(t, tp);
    lemma_split_single(t, tp);
    lemma_no_occurrence(t, ap);
    lemma_split_single(t, ap);
    assert(ap + Seq::<char>::empty() =~= ap);
}

/// A conversation saved with its thread kept can later be split back into
/// the thread id and assistant id it was saved with: the key that
/// `retain_thread` keeps for the thread `thread_<t>` and the assistant
/// `asst_<a>` splits into exactly those two ids, and a key kept without an
/// assistant splits into the thread id and a bare `asst_`.
pub proof fn lemma_saved_thread_key_round_trip(t: Seq<char>, a: Option<Seq<char>>)
    requires
        !contains(t, thread_prefix()),
        !contains(t, asst_prefix()),
        a matches Some(x) ==> !contains(x, thread_prefix()) && !contains(x, asst_prefix()),
    ensures
        ({
            let assistant = match a {
                Some(x) => Some(asst_prefix() + x),
                None => None,
            };
            let r = retention(Some(thread_prefix() + t), assistant, Some(true));
            &&& r.0 == 1
            &&& starts_with(r.1, thread_prefix())
            &&& thread_and_assistant(r.1) == (
                thread_prefix() + t,
                match a {
                    Some(x) => asst_prefix() + x,
                    None => asst_prefix(),
                },
            )
        }),
{
    match a {
        Some(x) => {
            assert((thread_prefix() + t + (asst_prefix() + x)).take(7) =~= thread_prefix());
            lemma_key_splits_into_ids(t, x);
            assert(thread_prefix() + t + (asst_prefix() + x) =~= thread_prefix() + t + asst_prefix()
                + x);
        },
        None => {
            assert((thread_prefix() + t).take(7) =~= thread_prefix());
            lemma_thread_only_key_splits(t);
        },
    }
}

} // verus!
