//! The Vietnamese input composer.
//!
//! [`VietnameseComposer`] owns one [`CompositionBuffer`] per remote session,
//! holds an instance of every input-method engine, and routes each keystroke
//! to the engine selected by the active [`InputMethod`]. When an engine
//! reports a commit trigger, the composed syllable is committed, normalized
//! and returned together with the trigger; invalid sequences are flushed as
//! the raw keystrokes that produced them.
//!
//! The abstract state of a composer ([`ComposerView`]) maps each session id
//! to the state of its buffer. Sessions are independent: every operation on
//! one session leaves the others as they were.

use vstd::prelude::*;
use vstd::string::StringExecFns;

use crate::buffer::{
    capped, empty_view, pop_model, record_model, synced, BufferView, CompositionBuffer, Snap,
    DEFAULT_CAPACITY, MAX_HISTORY_STEPS,
};
use crate::key_event::{is_passthrough_of, passthrough_event};
use crate::syllable::opt_chars;
use crate::telex::{telex_step, TelexEngine};
use crate::text::{chars_of, chars_lt, decimal, lemma_lex_total, lemma_lex_transitive, lex_lt, push_char, push_decimal, string_of};
use crate::unicode_norm::{normalized, NormalizationForm, UnicodeNormalizer};
use crate::vni::{vni_step, VniEngine};
use crate::vni_windows::{vni_windows_step, VniWindowsEngine};
use crate::{ComposerResult, InputMethod, InputMethodEngine, TransformResult};

verus! {

/// Default time, in nanoseconds, a session's in-flight composition may sit
/// idle before it is flushed to the remote session as raw text (500 ms).
pub const DEFAULT_TIMEOUT: u128 = 500_000_000;

/// Per-keystroke processing budget, in nanoseconds (10 ms).
pub const PROCESSING_BUDGET: u128 = 10_000_000;

/// Number of consecutive over-budget keystrokes that counts as sustained
/// performance degradation.
pub const SLOW_KEYSTROKE_THRESHOLD: u32 = 3;

/// Maximum memory the composer may use for composition state across all
/// sessions (10 MB).
pub const MEMORY_LIMIT_BYTES: usize = 10 * 1024 * 1024;

/// The backspace control character, forwarded when there is nothing to undo.
pub const BACKSPACE: char = '\u{8}';

/// What the composer holds for one session: the state of its buffer, and
/// whether a keystroke has been recorded since the buffer was last emptied.
pub struct SessionState {
    pub buffer: BufferView,
    pub touched: bool,
}

/// The session state of a buffer.
pub open spec fn state_of(b: CompositionBuffer) -> SessionState {
    SessionState { buffer: b@, touched: b.last_keystroke is Some }
}

/// A buffer holds neither composed text nor raw input.
pub open spec fn is_blank(v: BufferView) -> bool {
    v.current.len() == 0 && v.raw.len() == 0
}

/// No two buffers belong to the same session.
pub open spec fn ids_unique(bs: Seq<CompositionBuffer>) -> bool {
    forall|i: int, j: int|
        #![trigger bs[i], bs[j]]
        0 <= i < bs.len() && 0 <= j < bs.len() && i != j ==> bs[i].session_id@ != bs[j].session_id@
}

/// Some buffer belongs to session `k`.
pub open spec fn has_id(bs: Seq<CompositionBuffer>, k: Seq<char>) -> bool {
    exists|i: int| #![trigger bs[i]] 0 <= i < bs.len() && bs[i].session_id@ == k
}

/// The position of session `k`'s buffer.
pub open spec fn index_of_id(bs: Seq<CompositionBuffer>, k: Seq<char>) -> int {
    choose|i: int| #![trigger bs[i]] 0 <= i < bs.len() && bs[i].session_id@ == k
}

/// The sessions held by a list of buffers, by id.
pub open spec fn session_map(bs: Seq<CompositionBuffer>) -> Map<Seq<char>, SessionState> {
    Map::new(|k: Seq<char>| has_id(bs, k), |k: Seq<char>| state_of(bs[index_of_id(bs, k)]))
}

/// A buffer the composer may hold: its text agrees with its newest snapshot,
/// its history is bounded and its capacity is the default one.
pub open spec fn buffer_ok(b: CompositionBuffer) -> bool {
    &&& synced(b@)
    &&& b@.history.len() <= MAX_HISTORY_STEPS
    &&& b.capacity == DEFAULT_CAPACITY
}

/// Every buffer of the list may be held by the composer, each by its own
/// session.
pub open spec fn buffers_ok(bs: Seq<CompositionBuffer>) -> bool {
    &&& ids_unique(bs)
    &&& forall|i: int| 0 <= i < bs.len() ==> #[trigger] buffer_ok(bs[i])
}

proof fn lemma_map_at(bs: Seq<CompositionBuffer>, i: int)
    requires
        ids_unique(bs),
        0 <= i < bs.len(),
    ensures
        session_map(bs).contains_key(bs[i].session_id@),
        session_map(bs)[bs[i].session_id@] == state_of(bs[i]),
        index_of_id(bs, bs[i].session_id@) == i,
{
    let k = bs[i].session_id@;
    assert(has_id(bs, k));
    let j = index_of_id(bs, k);
    assert(bs[j].session_id@ == k);
}

proof fn lemma_map_empty(bs: Seq<CompositionBuffer>)
    requires
        bs.len() == 0,
    ensures
        session_map(bs) == Map::<Seq<char>, SessionState>::empty(),
{
    assert(session_map(bs) =~= Map::<Seq<char>, SessionState>::empty());
}

proof fn lemma_map_update(bs: Seq<CompositionBuffer>, i: int, b: CompositionBuffer)
    requires
        ids_unique(bs),
        0 <= i < bs.len(),
        b.session_id@ == bs[i].session_id@,
    ensures
        ids_unique(bs.update(i, b)),
        session_map(bs.update(i, b)) == session_map(bs).insert(b.session_id@, state_of(b)),
{
    let bs2 = bs.update(i, b);
    let m1 = session_map(bs2);
    let m2 = session_map(bs).insert(b.session_id@, state_of(b));
    assert(ids_unique(bs2)) by {
        assert forall|x: int, y: int| 0 <= x < bs2.len() && 0 <= y < bs2.len() && x != y implies bs2[x].session_id@
            != bs2[y].session_id@ by {
            assert(bs[x].session_id@ != bs[y].session_id@);
        }
    }
    assert forall|k: Seq<char>| m1.contains_key(k) <==> m2.contains_key(k) by {
        if has_id(bs2, k) {
            let j = index_of_id(bs2, k);
            if j != i {
                assert(bs[j] == bs2[j]);
                assert(has_id(bs, k));
            }
        }
        if has_id(bs, k) {
            let j = index_of_id(bs, k);
            assert(bs2[j].session_id@ == k);
            assert(has_id(bs2, k));
        }
    }
    assert forall|k: Seq<char>| m1.contains_key(k) implies m1[k] == m2[k] by {
        let j = index_of_id(bs2, k);
        lemma_map_at(bs2, j);
        if j != i {
            assert(bs[j] == bs2[j]);
            lemma_map_at(bs, j);
        }
    }
    assert(m1 =~= m2);
}

proof fn lemma_map_push(bs: Seq<CompositionBuffer>, b: CompositionBuffer)
    requires
        ids_unique(bs),
        !has_id(bs, b.session_id@),
    ensures
        ids_unique(bs.push(b)),
        session_map(bs.push(b)) == session_map(bs).insert(b.session_id@, state_of(b)),
{
    let bs2 = bs.push(b);
    let n = bs.len() as int;
    let m1 = session_map(bs2);
    let m2 = session_map(bs).insert(b.session_id@, state_of(b));
    assert(ids_unique(bs2)) by {
        assert forall|x: int, y: int| 0 <= x < bs2.len() && 0 <= y < bs2.len() && x != y implies bs2[x].session_id@
            != bs2[y].session_id@ by {
            if x == n {
                assert(bs[y] == bs2[y]);
            } else if y == n {
                assert(bs[x] == bs2[x]);
            } else {
                assert(bs[x].session_id@ != bs[y].session_id@);
            }
        }
    }
    assert forall|k: Seq<char>| m1.contains_key(k) <==> m2.contains_key(k) by {
        if has_id(bs2, k) {
            let j = index_of_id(bs2, k);
            if j != n {
                assert(bs[j] == bs2[j]);
                assert(has_id(bs, k));
            }
        }
        if has_id(bs, k) {
            let j = index_of_id(bs, k);
            assert(bs2[j] == bs[j]);
            assert(has_id(bs2, k));
        }
        if k == b.session_id@ {
            assert(bs2[n] == b);
            assert(has_id(bs2, k));
        }
    }
    assert forall|k: Seq<char>| m1.contains_key(k) implies m1[k] == m2[k] by {
        let j = index_of_id(bs2, k);
        lemma_map_at(bs2, j);
        if j != n {
            assert(bs[j] == bs2[j]);
            lemma_map_at(bs, j);
        }
    }
    assert(m1 =~= m2);
}

proof fn lemma_map_remove(bs: Seq<CompositionBuffer>, i: int)
    requires
        ids_unique(bs),
        0 <= i < bs.len(),
    ensures
        ids_unique(bs.remove(i)),
        session_map(bs.remove(i)) == session_map(bs).remove(bs[i].session_id@),
{
    let bs2 = bs.remove(i);
    let id = bs[i].session_id@;
    let m1 = session_map(bs2);
    let m2 = session_map(bs).remove(id);
    assert(ids_unique(bs2)) by {
        assert forall|x: int, y: int| 0 <= x < bs2.len() && 0 <= y < bs2.len() && x != y implies bs2[x].session_id@
            != bs2[y].session_id@ by {
            let x0 = if x < i { x } else { x + 1 };
            let y0 = if y < i { y } else { y + 1 };
            assert(bs2[x] == bs[x0]);
            assert(bs2[y] == bs[y0]);
            assert(bs[x0].session_id@ != bs[y0].session_id@);
        }
    }
    assert forall|k: Seq<char>| m1.contains_key(k) <==> m2.contains_key(k) by {
        if has_id(bs2, k) {
            let j = index_of_id(bs2, k);
            let j0 = if j < i { j } else { j + 1 };
            assert(bs2[j] == bs[j0]);
            assert(has_id(bs, k));
            assert(k != id);
        }
        if has_id(bs, k) && k != id {
            let j = index_of_id(bs, k);
            assert(j != i);
            let j2 = if j < i { j } else { j - 1 };
            assert(bs2[j2] == bs[j]);
            assert(has_id(bs2, k));
        }
    }
    assert forall|k: Seq<char>| m1.contains_key(k) implies m1[k] == m2[k] by {
        let j = index_of_id(bs2, k);
        lemma_map_at(bs2, j);
        let j0 = if j < i { j } else { j + 1 };
        assert(bs2[j] == bs[j0]);
        lemma_map_at(bs, j0);
    }
    assert(m1 =~= m2);
}

proof fn lemma_map_len(bs: Seq<CompositionBuffer>)
    requires
        ids_unique(bs),
    ensures
        session_map(bs).dom().finite(),
        session_map(bs).len() == bs.len(),
    decreases bs.len(),
{
    if bs.len() == 0 {
        lemma_map_empty(bs);
    } else {
        let init = bs.drop_last();
        let b = bs.last();
        assert(ids_unique(init)) by {
            assert forall|x: int, y: int| 0 <= x < init.len() && 0 <= y < init.len() && x != y implies init[x].session_id@
                != init[y].session_id@ by {
                assert(init[x] == bs[x]);
                assert(init[y] == bs[y]);
            }
        }
        assert(!has_id(init, b.session_id@)) by {
            if has_id(init, b.session_id@) {
                let j = index_of_id(init, b.session_id@);
                assert(init[j] == bs[j]);
                assert(bs[bs.len() - 1] == b);
            }
        }
        lemma_map_len(init);
        lemma_map_push(init, b);
        assert(init.push(b) =~= bs);
    }
}

proof fn lemma_ok_update(bs: Seq<CompositionBuffer>, i: int, b: CompositionBuffer)
    requires
        buffers_ok(bs),
        0 <= i < bs.len(),
        b.session_id@ == bs[i].session_id@,
        buffer_ok(b),
    ensures
        buffers_ok(bs.update(i, b)),
        session_map(bs.update(i, b)) == session_map(bs).insert(b.session_id@, state_of(b)),
{
    lemma_map_update(bs, i, b);
    assert forall|j: int| 0 <= j < bs.update(i, b).len() implies #[trigger] buffer_ok(bs.update(i, b)[j]) by {
        if j != i {
            assert(buffer_ok(bs[j]));
        }
    }
}

proof fn lemma_ok_push(bs: Seq<CompositionBuffer>, b: CompositionBuffer)
    requires
        buffers_ok(bs),
        !has_id(bs, b.session_id@),
        buffer_ok(b),
    ensures
        buffers_ok(bs.push(b)),
        session_map(bs.push(b)) == session_map(bs).insert(b.session_id@, state_of(b)),
{
    lemma_map_push(bs, b);
    assert forall|j: int| 0 <= j < bs.push(b).len() implies #[trigger] buffer_ok(bs.push(b)[j]) by {
        if j < bs.len() {
            assert(buffer_ok(bs[j]));
        }
    }
}

proof fn lemma_ok_remove(bs: Seq<CompositionBuffer>, i: int)
    requires
        buffers_ok(bs),
        0 <= i < bs.len(),
    ensures
        buffers_ok(bs.remove(i)),
        session_map(bs.remove(i)) == session_map(bs).remove(bs[i].session_id@),
{
    lemma_map_remove(bs, i);
    assert forall|j: int| 0 <= j < bs.remove(i).len() implies #[trigger] buffer_ok(bs.remove(i)[j]) by {
        let j0 = if j < i { j } else { j + 1 };
        assert(bs.remove(i)[j] == bs[j0]);
        assert(buffer_ok(bs[j0]));
    }
}

/// The position of `id`'s buffer in `bs`, if any.
fn find_session(bs: &Vec<CompositionBuffer>, id: &String) -> (r: Option<usize>)
    ensures
        match r {
            Some(i) => i < bs@.len() && bs@[i as int].session_id@ == id@,
            None => !has_id(bs@, id@),
        },
{
    let mut i: usize = 0;
    while i < bs.len()
        invariant
            i <= bs@.len(),
            forall|j: int| 0 <= j < i ==> #[trigger] bs@[j].session_id@ != id@,
        decreases bs@.len() - i,
    {
        if bs[i].session_id == *id {
            return Some(i);
        }
        i += 1;
    }
    None
}

/// `w` is `v` with exactly one snapshot, of `w`'s own state, recorded on top
/// of `v`'s history (the oldest dropped beyond the bound).
pub open spec fn appended(v: BufferView, w: BufferView) -> bool {
    &&& w.history.len() > 0
    &&& w.history == capped(v.history.push(w.history.last()))
    &&& synced(w)
}

proof fn lemma_record_appends(x: BufferView, s: crate::TransformStep)
    ensures
        appended(x, record_model(x, s)),
        record_model(x, s).history.len() <= MAX_HISTORY_STEPS,
{
    let snap: Snap = (x.current, x.raw, s);
    let h = x.history.push(snap);
    let w = record_model(x, s);
    if h.len() > MAX_HISTORY_STEPS {
        let k = h.len() - MAX_HISTORY_STEPS;
        assert(h.skip(k)[h.skip(k).len() - 1] == h[h.len() - 1]);
    }
    assert(w.history.last() == snap);
}

/// The buffer state and verdict of the engine for method `m`; the composer
/// runs VNI Windows without overrides.
pub open spec fn method_step(m: InputMethod, v: BufferView, key: char) -> (BufferView, TransformResult) {
    match m {
        InputMethod::Telex => telex_step(v, key),
        InputMethod::Vni => vni_step(v, key),
        InputMethod::VniWindows => vni_windows_step(v, key, Seq::empty()),
        InputMethod::Off => (v, TransformResult::CommitAndPass(key)),
    }
}

/// Each keystroke an engine does not pass on records exactly one snapshot,
/// of the state it produces, on top of the previous history.
pub proof fn lemma_method_step(m: InputMethod, v: BufferView, key: char)
    requires
        m != InputMethod::Off,
    ensures
        ({
            let (w, r) = method_step(m, v, key);
            &&& r is CommitAndPass ==> w == v
            &&& !(r is CommitAndPass) ==> appended(v, w) && w.history.len() <= MAX_HISTORY_STEPS && (r
                is Transformed || r is ToneApplied)
        }),
{
    assert forall|x: BufferView, s: crate::TransformStep| #[trigger] record_model(x, s) == record_model(x, s) implies appended(
        x,
        record_model(x, s),
    ) && record_model(x, s).history.len() <= MAX_HISTORY_STEPS by {
        lemma_record_appends(x, s);
    }
}

/// Undoing the newest snapshot leaves a buffer that agrees with its own
/// newest snapshot, with no more history than before.
proof fn lemma_pop_ok(w: BufferView)
    requires
        synced(w),
    ensures
        synced(pop_model(w).0),
        pop_model(w).0.history.len() <= w.history.len(),
{
    if w.history.len() > 0 {
        let h = w.history.drop_last();
        if h.len() == 0 {
            assert(pop_model(w).0.current =~= Seq::<char>::empty());
            assert(pop_model(w).0.raw =~= Seq::<char>::empty());
        }
    }
}

/// Undoing the snapshot a keystroke recorded restores the composed text and
/// the raw input the buffer had before it.
proof fn lemma_pop_appended(v: BufferView, w: BufferView)
    requires
        synced(v),
        appended(v, w),
    ensures
        pop_model(w).1 is Some,
        pop_model(w).0.current == v.current,
        pop_model(w).0.raw == v.raw,
{
    let h = v.history.push(w.history.last());
    let hd = w.history.drop_last();
    if h.len() > MAX_HISTORY_STEPS {
        let k = h.len() - MAX_HISTORY_STEPS;
        assert(hd.len() > 0);
        assert(hd[hd.len() - 1] == h.skip(k)[hd.len() - 1]);
        assert(h.skip(k)[hd.len() - 1] == h[h.len() - 2]);
        assert(h[h.len() - 2] == v.history.last());
    } else {
        assert(hd =~= v.history);
    }
}

/// What the composer tells its caller, in the abstract.
pub enum Outcome {
    /// Nothing to send.
    Consumed,
    /// Send this composed text.
    Compose(Seq<char>),
    /// Send this character as a key event.
    PassThrough(char),
    /// Send these raw keystrokes.
    Flush(Seq<char>),
}

/// `r` is what the outcome `o` describes.
pub open spec fn result_is(r: ComposerResult, o: Outcome) -> bool {
    match o {
        Outcome::Consumed => r is Consumed,
        Outcome::Compose(s) => r matches ComposerResult::Compose(t) && t@ == s,
        Outcome::PassThrough(c) => r matches ComposerResult::PassThrough(e) && is_passthrough_of(e, c),
        Outcome::Flush(s) => r matches ComposerResult::Flush(t) && t@ == s,
    }
}

/// The position of session `id`'s buffer in `bs`; an empty buffer is
/// created for it if it has none.
fn open_session(bs: &mut Vec<CompositionBuffer>, id: &String) -> (i: usize)
    requires
        buffers_ok(old(bs)@),
    ensures
        buffers_ok(final(bs)@),
        i < final(bs)@.len(),
        final(bs)@[i as int].session_id@ == id@,
        session_map(final(bs)@) == session_map(old(bs)@).insert(id@, state_of(final(bs)@[i as int])),
        session_map(old(bs)@).contains_key(id@) ==> state_of(final(bs)@[i as int]) == session_map(old(bs)@)[id@],
        !session_map(old(bs)@).contains_key(id@) ==> state_of(final(bs)@[i as int]) == (SessionState {
            buffer: empty_view(),
            touched: false,
        }),
{
    match find_session(bs, id) {
        Some(i) => {
            proof {
                lemma_map_at(bs@, i as int);
                assert(session_map(bs@).insert(id@, state_of(bs@[i as int])) =~= session_map(bs@));
            }
            i
        },
        None => {
            let b = CompositionBuffer::new(id.clone());
            proof {
                lemma_ok_push(bs@, b);
            }
            bs.push(b);
            bs.len() - 1
        },
    }
}

/// Capacity in bytes of a string's buffer (`String::capacity`). It depends
/// on the allocator's choices; `String`'s documentation promises only that
/// the length in bytes, and so the number of chars, never exceeds it.
#[verifier::external_body]
fn string_capacity(s: &String) -> (r: usize)
    ensures
        r >= s@.len(),
{
    s.capacity()
}

/// Number of chars a vector can hold without reallocating
/// (`Vec::capacity`). It depends on the allocator's choices; it is at least
/// the number of chars the vector holds.
#[verifier::external_body]
fn chars_capacity(v: &Vec<char>) -> (r: usize)
    ensures
        r >= v@.len(),
{
    v.capacity()
}

/// `a * b`, or `usize::MAX` when the product does not fit.
fn mul_saturating(a: usize, b: usize) -> (r: usize)
    ensures
        r == if a * b > usize::MAX { usize::MAX as int } else { a * b },
{
    match a.checked_mul(b) {
        Some(x) => x,
        None => usize::MAX,
    }
}

/// The capacities read from one session's buffer: of the id the composer
/// keys it by, of the buffer's own session id, of its composed text (bytes)
/// and raw input (chars), and of each history snapshot's text and raw input.
pub struct BufferCapacities {
    pub key: usize,
    pub id: usize,
    pub current: usize,
    pub raw: usize,
    pub history: Vec<(usize, usize)>,
}

/// `x`, or `usize::MAX` when it does not fit.
pub open spec fn sat(x: int) -> int {
    if x > usize::MAX {
        usize::MAX as int
    } else {
        x
    }
}

/// `start` plus, for each snapshot, its struct size, its text capacity and
/// its raw input's capacity in bytes, each added with saturation.
pub open spec fn history_total(start: int, h: Seq<(usize, usize)>) -> int
    decreases h.len(),
{
    if h.len() == 0 {
        start
    } else {
        let acc = history_total(start, h.drop_last());
        sat(
            sat(sat(acc + vstd::layout::size_of::<crate::buffer::CompositionState>()) + h.last().0) + sat(
                h.last().1 * vstd::layout::size_of::<char>(),
            ),
        )
    }
}

/// The estimated footprint of one buffer: its struct, its session id, its
/// composed text, its raw input in bytes, then its history (see
/// [`history_total`]), added with saturation.
pub open spec fn buffer_total(c: BufferCapacities) -> int {
    history_total(
        sat(sat(sat(vstd::layout::size_of::<CompositionBuffer>() + c.id) + c.current) + sat(
            c.raw * vstd::layout::size_of::<char>(),
        )),
        c.history@,
    )
}

/// The estimated footprint of the composer: its struct, then for each
/// buffer the capacity of its key and the buffer's own footprint (see
/// [`buffer_total`]), added with saturation.
pub open spec fn capacity_total(cs: Seq<BufferCapacities>) -> int
    decreases cs.len(),
{
    if cs.len() == 0 {
        vstd::layout::size_of::<VietnameseComposer>() as int
    } else {
        sat(sat(capacity_total(cs.drop_last()) + cs.last().key) + buffer_total(cs.last()))
    }
}

/// The capacities `c` could have been read from `b`: one pair per
/// snapshot, and each capacity at least the length it holds.
pub open spec fn capacities_of_buffer(c: BufferCapacities, b: CompositionBuffer) -> bool {
    &&& c.key >= b.session_id@.len()
    &&& c.id >= b.session_id@.len()
    &&& c.current >= b.current@.len()
    &&& c.raw >= b.raw_input@.len()
    &&& c.history@.len() == b.history@.len()
    &&& forall|j: int|
        0 <= j < c.history@.len() ==> (#[trigger] c.history@[j]).0 >= b.history@[j].text@.len() && c.history@[j].1
            >= b.history@[j].raw@.len()
}

proof fn lemma_history_total_ge(start: int, h: Seq<(usize, usize)>)
    requires
        0 <= start <= usize::MAX,
    ensures
        start <= history_total(start, h) <= usize::MAX,
    decreases h.len(),
{
    broadcast use vstd::layout::layout_of_primitives;

    if h.len() > 0 {
        lemma_history_total_ge(start, h.drop_last());
    }
}

proof fn lemma_buffer_total_ge(c: BufferCapacities)
    ensures
        buffer_total(c) >= c.current,
        buffer_total(c) >= sat(c.raw * 4),
        buffer_total(c) <= usize::MAX,
{
    broadcast use vstd::layout::layout_of_primitives;

    let start = sat(sat(sat(vstd::layout::size_of::<CompositionBuffer>() + c.id) + c.current) + sat(
        c.raw * vstd::layout::size_of::<char>(),
    ));
    lemma_history_total_ge(start, c.history@);
}

proof fn lemma_capacity_total_ge(cs: Seq<BufferCapacities>, i: int, x: int)
    requires
        0 <= i < cs.len(),
        0 <= x <= usize::MAX,
        buffer_total(cs[i]) >= x,
    ensures
        capacity_total(cs) >= x,
    decreases cs.len(),
{
    lemma_capacity_total_nonneg(cs.drop_last());
    lemma_buffer_total_ge(cs.last());
    if i < cs.len() - 1 {
        assert(cs.drop_last()[i] == cs[i]);
        lemma_capacity_total_ge(cs.drop_last(), i, x);
    } else {
        assert(cs.last() == cs[i]);
    }
}

proof fn lemma_capacity_total_nonneg(cs: Seq<BufferCapacities>)
    ensures
        capacity_total(cs) >= 0,
    decreases cs.len(),
{
    if cs.len() > 0 {
        lemma_capacity_total_nonneg(cs.drop_last());
        lemma_buffer_total_ge(cs.last());
    }
}

/// The estimated footprint of one buffer from its capacities.
fn buffer_estimate(c: &BufferCapacities) -> (r: usize)
    ensures
        r == buffer_total(*c),
{
    let char_size = std::mem::size_of::<char>();
    let mut bytes = std::mem::size_of::<CompositionBuffer>();
    bytes = bytes.saturating_add(c.id);
    bytes = bytes.saturating_add(c.current);
    bytes = bytes.saturating_add(mul_saturating(c.raw, char_size));
    let ghost start = bytes as int;
    let mut i: usize = 0;
    proof {
        assert(c.history@.take(0) =~= Seq::<(usize, usize)>::empty());
    }
    while i < c.history.len()
        invariant
            i <= c.history@.len(),
            char_size == vstd::layout::size_of::<char>(),
            bytes == history_total(start, c.history@.take(i as int)),
        decreases c.history@.len() - i,
    {
        proof {
            assert(c.history@.take(i + 1).drop_last() =~= c.history@.take(i as int));
        }
        bytes = bytes.saturating_add(std::mem::size_of::<crate::buffer::CompositionState>());
        bytes = bytes.saturating_add(c.history[i].0);
        bytes = bytes.saturating_add(mul_saturating(c.history[i].1, char_size));
        i += 1;
    }
    proof {
        assert(c.history@.take(i as int) =~= c.history@);
    }
    bytes
}

/// The estimated footprint of a composer whose buffers have the given
/// capacities, in order (see [`capacity_total`]).
pub fn estimate_from_capacities(caps: &Vec<BufferCapacities>) -> (r: usize)
    ensures
        r == capacity_total(caps@),
{
    let mut total = std::mem::size_of::<VietnameseComposer>();
    let mut i: usize = 0;
    proof {
        assert(caps@.take(0) =~= Seq::<BufferCapacities>::empty());
    }
    while i < caps.len()
        invariant
            i <= caps@.len(),
            total == capacity_total(caps@.take(i as int)),
        decreases caps@.len() - i,
    {
        proof {
            assert(caps@.take(i + 1).drop_last() =~= caps@.take(i as int));
        }
        total = total.saturating_add(caps[i].key);
        total = total.saturating_add(buffer_estimate(&caps[i]));
        i += 1;
    }
    proof {
        assert(caps@.take(i as int) =~= caps@);
    }
    total
}

/// The capacities of one buffer, read from the allocator.
fn capacities_of(b: &CompositionBuffer) -> (c: BufferCapacities)
    ensures
        capacities_of_buffer(c, *b),
{
    let mut history: Vec<(usize, usize)> = Vec::new();
    let mut i: usize = 0;
    while i < b.history.len()
        invariant
            i <= b.history@.len(),
            history@.len() == i,
            forall|j: int|
                0 <= j < i ==> (#[trigger] history@[j]).0 >= b.history@[j].text@.len() && history@[j].1
                    >= b.history@[j].raw@.len(),
        decreases b.history@.len() - i,
    {
        let state = &b.history[i];
        history.push((string_capacity(&state.text), chars_capacity(&state.raw)));
        i += 1;
    }
    BufferCapacities {
        key: string_capacity(&b.session_id),
        id: string_capacity(&b.session_id),
        current: string_capacity(&b.current),
        raw: chars_capacity(&b.raw_input),
        history,
    }
}

/// A history total from a nonnegative start is nonnegative.
proof fn lemma_history_total_nonneg(start: int, h: Seq<(usize, usize)>)
    requires
        start >= 0,
    ensures
        history_total(start, h) >= 0,
    decreases h.len(),
{
    if h.len() > 0 {
        lemma_history_total_nonneg(start, h.drop_last());
    }
}

/// A composer's estimate is never below its own struct size.
proof fn lemma_capacity_total_floor(cs: Seq<BufferCapacities>)
    requires
        vstd::layout::size_of::<VietnameseComposer>() <= usize::MAX,
    ensures
        capacity_total(cs) >= vstd::layout::size_of::<VietnameseComposer>(),
    decreases cs.len(),
{
    if cs.len() > 0 {
        lemma_capacity_total_floor(cs.drop_last());
        let c = cs.last();
        lemma_history_total_nonneg(
            sat(sat(sat(vstd::layout::size_of::<CompositionBuffer>() + c.id) + c.current) + sat(
                c.raw * vstd::layout::size_of::<char>(),
            )),
            c.history@,
        );
    }
}

/// `bytes` exceeds [`MEMORY_LIMIT_BYTES`].
pub fn exceeds_memory_limit(bytes: usize) -> (r: bool)
    ensures
        r == (bytes > MEMORY_LIMIT_BYTES),
{
    bytes > MEMORY_LIMIT_BYTES
}

/// The counter of consecutive slow keystrokes after one more keystroke
/// taking `elapsed` nanoseconds: reset within budget, incremented (saturating)
/// over it.
pub open spec fn slow_count_after(count: u32, elapsed: u128) -> u32 {
    if elapsed <= PROCESSING_BUDGET {
        0
    } else if count == u32::MAX {
        u32::MAX
    } else {
        (count + 1) as u32
    }
}

/// The (session id, text) pairs of a list of flushed sessions, as views.
pub open spec fn pair_views(r: Seq<(String, String)>) -> Seq<(Seq<char>, Seq<char>)> {
    r.map_values(|p: (String, String)| (p.0@, p.1@))
}

/// Session `id` holds something, has a recorded keystroke, and has been
/// idle `elapsed` nanoseconds, at least `timeout`.
pub open spec fn idle_past(
    sessions: Map<Seq<char>, SessionState>,
    id: Seq<char>,
    elapsed: u128,
    timeout: u128,
) -> bool {
    &&& sessions.contains_key(id)
    &&& !is_blank(sessions[id].buffer)
    &&& sessions[id].touched
    &&& elapsed >= timeout
}

/// One timed-out flush of session `id`: when it has been idle long enough
/// its raw keystrokes come back and it is removed; otherwise nothing comes
/// back and nothing changes.
pub open spec fn flushed_one(
    before: Map<Seq<char>, SessionState>,
    after: Map<Seq<char>, SessionState>,
    id: Seq<char>,
    elapsed: u128,
    timeout: u128,
    r: Option<Seq<char>>,
) -> bool {
    if idle_past(before, id, elapsed, timeout) {
        r == Some(before[id].buffer.raw) && after == before.remove(id)
    } else {
        r is None && after == before
    }
}

/// Idle times as (session id, nanoseconds) values.
pub open spec fn idle_views(idle: Seq<(String, u128)>) -> Seq<(Seq<char>, u128)> {
    idle.map_values(|p: (String, u128)| (p.0@, p.1))
}

/// The idle time `idle` gives session `k`: its last entry, if any.
pub open spec fn idle_of(idle: Seq<(Seq<char>, u128)>, k: Seq<char>) -> Option<u128>
    decreases idle.len(),
{
    if idle.len() == 0 {
        None
    } else if idle.last().0 == k {
        Some(idle.last().1)
    } else {
        idle_of(idle.drop_last(), k)
    }
}

/// `idle` gives an idle time to every session with a recorded keystroke.
pub open spec fn covers(sessions: Map<Seq<char>, SessionState>, idle: Seq<(Seq<char>, u128)>) -> bool {
    forall|k: Seq<char>| sessions.contains_key(k) && #[trigger] sessions[k].touched ==> idle_of(idle, k) is Some
}

/// Session `k` holds something, has a recorded keystroke, and its idle time
/// in `idle` is at least `timeout`.
pub open spec fn stale(
    sessions: Map<Seq<char>, SessionState>,
    idle: Seq<(Seq<char>, u128)>,
    timeout: u128,
    k: Seq<char>,
) -> bool {
    &&& sessions.contains_key(k)
    &&& !is_blank(sessions[k].buffer)
    &&& sessions[k].touched
    &&& idle_of(idle, k) matches Some(e) && e >= timeout
}

/// A sweep of timed-out sessions: `out` lists exactly the stale sessions,
/// each once with its raw keystrokes, and they alone are removed.
pub open spec fn flushed_stale(
    before: Map<Seq<char>, SessionState>,
    after: Map<Seq<char>, SessionState>,
    out: Seq<(Seq<char>, Seq<char>)>,
    idle: Seq<(Seq<char>, u128)>,
    timeout: u128,
) -> bool {
    &&& flushed_from(before, out)
    &&& forall|k: Seq<char>| before.contains_key(k) ==> (#[trigger] listed(out, k) <==> stale(before, idle, timeout, k))
    &&& after == before.filter_keys(|k: Seq<char>| !listed(out, k))
}

/// The idle time `idle` gives session `id` (its last entry).
fn idle_lookup(idle: &Vec<(String, u128)>, id: &String) -> (r: Option<u128>)
    ensures
        r == idle_of(idle_views(idle@), id@),
{
    let mut i = idle.len();
    proof {
        assert(idle_views(idle@).take(i as int) =~= idle_views(idle@));
    }
    while i > 0
        invariant
            i <= idle@.len(),
            idle_of(idle_views(idle@), id@) == idle_of(idle_views(idle@).take(i as int), id@),
        decreases i,
    {
        proof {
            assert(idle_views(idle@).take(i as int).drop_last() =~= idle_views(idle@).take(i - 1));
        }
        if idle[i - 1].0 == *id {
            return Some(idle[i - 1].1);
        }
        i -= 1;
    }
    None
}

/// The memory limit was enforced: the warning is set, every session whose
/// buffer holds something is flushed as raw text and listed once in `out`,
/// and no session remains.
pub open spec fn memory_flushed(before: ComposerView, after: ComposerView, out: Seq<(Seq<char>, Seq<char>)>) -> bool {
    &&& after.memory_warning
    &&& flushed_from(before.sessions, out)
    &&& forall|k: Seq<char>|
        #![trigger before.sessions[k]]
        before.sessions.contains_key(k) && !is_blank(before.sessions[k].buffer) ==> listed(out, k)
    &&& after.sessions == Map::<Seq<char>, SessionState>::empty()
}

/// Session `k` is listed in `out`.
pub open spec fn listed(out: Seq<(Seq<char>, Seq<char>)>, k: Seq<char>) -> bool {
    exists|i: int| #![trigger out[i]] 0 <= i < out.len() && out[i].0 == k
}

/// `out` lists sessions of `sessions` whose buffers hold something, each
/// once, each with the raw input of its buffer.
pub open spec fn flushed_from(sessions: Map<Seq<char>, SessionState>, out: Seq<(Seq<char>, Seq<char>)>) -> bool {
    &&& forall|i: int|
        #![trigger out[i]]
        0 <= i < out.len() ==> sessions.contains_key(out[i].0) && !is_blank(sessions[out[i].0].buffer)
            && out[i].1 == sessions[out[i].0].buffer.raw
    &&& forall|i: int, j: int| #![trigger out[i], out[j]] 0 <= i < j < out.len() ==> out[i].0 != out[j].0
}

proof fn lemma_pair_views_push(r: Seq<(String, String)>, p: (String, String))
    ensures
        pair_views(r.push(p)) == pair_views(r).push((p.0@, p.1@)),
{
    assert(pair_views(r.push(p)) =~= pair_views(r).push((p.0@, p.1@)));
}

/// The `Debug` rendering of a string: quoted, with quotes, backslashes and
/// non-printable characters escaped (`<str as Debug>::fmt`).
pub uninterp spec fn debug_quoted(s: Seq<char>) -> Seq<char>;

/// `format!("{:?}", s)`: the `Debug` rendering of `s`. The result is named,
/// not restated; it depends on `s` alone.
#[verifier::external_body]
fn debug_string(s: &str) -> (r: String)
    ensures
        r@ == debug_quoted(s@),
{
    format!("{:?}", s)
}

/// The name of an input method as its `Debug` rendering shows it.
pub open spec fn method_name(m: InputMethod) -> Seq<char> {
    match m {
        InputMethod::Telex => "Telex"@,
        InputMethod::Vni => "Vni"@,
        InputMethod::VniWindows => "VniWindows"@,
        InputMethod::Off => "Off"@,
    }
}

fn method_debug_name(m: InputMethod) -> (r: &'static str)
    ensures
        r@ == method_name(m),
{
    match m {
        InputMethod::Telex => "Telex",
        InputMethod::Vni => "Vni",
        InputMethod::VniWindows => "VniWindows",
        InputMethod::Off => "Off",
    }
}

/// The session ids are in strictly increasing order.
pub open spec fn sorted_ids(order: Seq<Seq<char>>) -> bool {
    forall|i: int, j: int| 0 <= i < j < order.len() ==> lex_lt(#[trigger] order[i], #[trigger] order[j])
}

/// `x` occurs in `s`.
pub open spec fn occurs(s: Seq<usize>, x: int) -> bool {
    exists|i: int| 0 <= i < s.len() && #[trigger] s[i] == x
}

/// The positions `0..n` of `bs`, ordered by session id.
fn sorted_positions(bs: &Vec<CompositionBuffer>) -> (r: Vec<usize>)
    requires
        ids_unique(bs@),
    ensures
        r@.len() == bs@.len(),
        forall|i: int| 0 <= i < r@.len() ==> #[trigger] r@[i] < bs@.len(),
        forall|x: int| 0 <= x < bs@.len() ==> #[trigger] occurs(r@, x),
        forall|i: int, j: int|
            0 <= i < j < r@.len() ==> lex_lt(bs@[#[trigger] r@[i] as int].session_id@, bs@[#[trigger] r@[j] as int].session_id@),
{
    let n = bs.len();
    let mut r: Vec<usize> = Vec::new();
    let mut k: usize = 0;
    while k < n
        invariant
            k <= n,
            n == bs@.len(),
            ids_unique(bs@),
            r@.len() == k,
            forall|i: int| 0 <= i < r@.len() ==> #[trigger] r@[i] < k,
            forall|x: int| 0 <= x < k ==> #[trigger] occurs(r@, x),
            forall|i: int, j: int|
                0 <= i < j < r@.len() ==> lex_lt(bs@[#[trigger] r@[i] as int].session_id@, bs@[#[trigger] r@[j] as int].session_id@),
        decreases n - k,
    {
        let key = chars_of(bs[k].session_id.as_str());
        let mut p: usize = 0;
        loop
            invariant
                k < n,
                n == bs@.len(),
                r@.len() == k,
                key@ == bs@[k as int].session_id@,
                forall|i: int| 0 <= i < r@.len() ==> #[trigger] r@[i] < k,
                p <= r@.len(),
                forall|q: int| 0 <= q < p ==> lex_lt(bs@[#[trigger] r@[q] as int].session_id@, key@),
            ensures
                p <= r@.len(),
                forall|q: int| 0 <= q < p ==> lex_lt(bs@[#[trigger] r@[q] as int].session_id@, key@),
                p < r@.len() ==> !lex_lt(bs@[r@[p as int] as int].session_id@, key@),
            decreases r@.len() - p,
        {
            if p >= r.len() {
                break;
            }
            let other = chars_of(bs[r[p]].session_id.as_str());
            if !chars_lt(other.as_slice(), key.as_slice()) {
                break;
            }
            p += 1;
        }
        let ghost r0 = r@;
        r.insert(p, k);
        proof {
            let kid = bs@[k as int].session_id@;
            if p < r0.len() {
                let other = bs@[r0[p as int] as int].session_id@;
                assert(other != kid) by {
                    assert(r0[p as int] < k);
                }
                lemma_lex_total(other, kid);
            }
            assert forall|i: int, j: int| 0 <= i < j < r@.len() implies lex_lt(
                bs@[#[trigger] r@[i] as int].session_id@,
                bs@[#[trigger] r@[j] as int].session_id@,
            ) by {
                if j == p {
                    assert(r@[i] == r0[i]);
                } else if i == p {
                    assert(r@[j] == r0[j - 1]);
                    if j - 1 > p {
                        assert(r0[p as int] == r@[p + 1]);
                        lemma_lex_transitive(kid, bs@[r0[p as int] as int].session_id@, bs@[r0[j - 1] as int].session_id@);
                    }
                } else {
                    let i0 = if i < p { i } else { i - 1 };
                    let j0 = if j < p { j } else { j - 1 };
                    assert(r@[i] == r0[i0]);
                    assert(r@[j] == r0[j0]);
                }
            }
            assert forall|x: int| 0 <= x < k + 1 implies #[trigger] occurs(r@, x) by {
                if x == k {
                    assert(r@[p as int] == x);
                } else {
                    assert(occurs(r0, x));
                    let i0 = choose|i: int| 0 <= i < r0.len() && #[trigger] r0[i] == x;
                    if i0 < p {
                        assert(r@[i0] == x);
                    } else {
                        assert(r@[i0 + 1] == x);
                    }
                }
            }
        }
        k += 1;
    }
    r
}

/// The first line of the diagnostic dump: the active method and the number
/// of sessions.
pub open spec fn dump_header(v: ComposerView) -> Seq<char> {
    "[vietnamese-input] diagnostics: active_method="@ + method_name(v.active) + ", active_sessions="@ + decimal(
        v.sessions.len(),
    ) + "\n"@
}

/// The diagnostic line of one session: its id, composed text and raw input
/// (both rendered as by `Debug`), history depth and capacity.
pub open spec fn dump_line(id: Seq<char>, st: SessionState) -> Seq<char> {
    "  session="@ + id + ": current="@ + debug_quoted(st.buffer.current) + ", raw_input="@ + debug_quoted(
        st.buffer.raw,
    ) + ", history_len="@ + decimal(st.buffer.history.len()) + ", capacity="@ + decimal(DEFAULT_CAPACITY as nat)
        + "\n"@
}

/// The diagnostic lines of the sessions listed in `order`, in that order.
pub open spec fn dump_lines(sessions: Map<Seq<char>, SessionState>, order: Seq<Seq<char>>) -> Seq<char>
    decreases order.len(),
{
    if order.len() == 0 {
        Seq::empty()
    } else {
        dump_lines(sessions, order.drop_last()) + dump_line(order.last(), sessions[order.last()])
    }
}

/// The composer's abstract state.
pub struct ComposerView {
    /// Each live session's buffer state, by session id.
    pub sessions: Map<Seq<char>, SessionState>,
    /// The active input method.
    pub active: InputMethod,
    /// The most recently active composing method.
    pub last_active: InputMethod,
    /// The normalization form applied to committed text.
    pub form: NormalizationForm,
    /// Consecutive keystrokes processed over budget.
    pub slow_keystrokes: u32,
    /// Whether a memory-overflow warning is in effect.
    pub memory_warning: bool,
}

impl ComposerView {
    /// Session `id`'s buffer, or an empty one when it has none.
    pub open spec fn buffer_of(self, id: Seq<char>) -> BufferView {
        if self.sessions.contains_key(id) {
            self.sessions[id].buffer
        } else {
            empty_view()
        }
    }

    /// Every session's buffer agrees with its newest snapshot and keeps a
    /// bounded history, and the remembered method is a composing one: what
    /// holds of every composer.
    pub open spec fn valid(self) -> bool {
        &&& self.last_active != InputMethod::Off
        &&& self.sessions.dom().finite()
        &&& forall|k: Seq<char>| #[trigger]
            self.sessions.contains_key(k) ==> synced(self.sessions[k].buffer)
                && self.sessions[k].buffer.history.len() <= MAX_HISTORY_STEPS
    }
}

/// The method that follows `m` in the cycling order
/// Telex → VNI → VNI Windows → Off → Telex.
pub open spec fn next_method(m: InputMethod) -> InputMethod {
    match m {
        InputMethod::Telex => InputMethod::Vni,
        InputMethod::Vni => InputMethod::VniWindows,
        InputMethod::VniWindows => InputMethod::Off,
        InputMethod::Off => InputMethod::Telex,
    }
}

/// The (active, last active) methods after selecting `m`.
pub open spec fn select_model(m: InputMethod, last: InputMethod) -> (InputMethod, InputMethod) {
    (m, if m != InputMethod::Off { m } else { last })
}

/// The (active, last active) methods after toggling composition.
pub open spec fn toggle_model(active: InputMethod, last: InputMethod) -> (InputMethod, InputMethod) {
    if active == InputMethod::Off {
        (last, last)
    } else {
        (InputMethod::Off, active)
    }
}

/// Cycling through the methods four times returns to the starting method.
pub proof fn lemma_cycle_returns(m: InputMethod)
    ensures
        next_method(next_method(next_method(next_method(m)))) == m,
{
}

/// Toggling composition twice restores the active method.
pub proof fn lemma_toggle_twice(active: InputMethod, last: InputMethod)
    ensures
        toggle_model(toggle_model(active, last).0, toggle_model(active, last).1).0 == active,
{
}

/// With a composing method remembered, toggling from off always turns
/// composition back on, with that method, and whatever the toggle does the
/// remembered method stays a composing one.
pub proof fn lemma_toggle_from_off(active: InputMethod, last: InputMethod)
    requires
        last != InputMethod::Off,
    ensures
        active == InputMethod::Off ==> toggle_model(active, last).0 == last,
        toggle_model(active, last).0 == InputMethod::Off <==> active != InputMethod::Off,
        toggle_model(active, last).1 != InputMethod::Off,
{
}

/// The sessions and outcome after one keystroke `key` for session `id`:
/// with composition off the key passes through; otherwise the active engine
/// runs on the session's buffer (a new, empty one if it has none). A commit
/// trigger ends the session's composition and sends the normalized text
/// followed by the trigger (or just the trigger when nothing was composed);
/// an invalid sequence is flushed as raw keystrokes; anything else is
/// buffered. No other session is touched.
pub open spec fn key_step(v: ComposerView, id: Seq<char>, key: char) -> (Map<Seq<char>, SessionState>, Outcome) {
    if v.active == InputMethod::Off {
        (v.sessions, Outcome::PassThrough(key))
    } else {
        let (after, tr) = method_step(v.active, v.buffer_of(id), key);
        match tr {
            TransformResult::CommitAndPass(t) => if is_blank(after) {
                (v.sessions.remove(id), Outcome::PassThrough(t))
            } else {
                (v.sessions.remove(id), Outcome::Compose(normalized(v.form, after.current).push(t)))
            },
            TransformResult::InvalidSequence => (
                v.sessions.insert(id, SessionState { buffer: empty_view(), touched: false }),
                Outcome::Flush(after.raw),
            ),
            _ => (v.sessions.insert(id, SessionState { buffer: after, touched: true }), Outcome::Consumed),
        }
    }
}

/// The sessions and outcome after a backspace for session `id`: the newest
/// step of its composition is undone (the session is dropped once nothing is
/// left), or, with nothing to undo, a backspace key passes through.
pub open spec fn backspace_step(sessions: Map<Seq<char>, SessionState>, id: Seq<char>) -> (Map<Seq<char>, SessionState>, Outcome) {
    if sessions.contains_key(id) && sessions[id].buffer.history.len() > 0 {
        let back = pop_model(sessions[id].buffer).0;
        if is_blank(back) {
            (sessions.remove(id), Outcome::Consumed)
        } else {
            (sessions.insert(id, SessionState { buffer: back, touched: sessions[id].touched }), Outcome::Consumed)
        }
    } else if sessions.contains_key(id) && is_blank(sessions[id].buffer) {
        (sessions.remove(id), Outcome::PassThrough(BACKSPACE))
    } else {
        (sessions, Outcome::PassThrough(BACKSPACE))
    }
}

/// A keystroke for one session leaves every other session as it was.
pub proof fn lemma_keystroke_isolated(v: ComposerView, id: Seq<char>, key: char, other: Seq<char>)
    requires
        other != id,
    ensures
        key_step(v, id, key).0.contains_key(other) == v.sessions.contains_key(other),
        v.sessions.contains_key(other) ==> key_step(v, id, key).0[other] == v.sessions[other],
        backspace_step(v.sessions, id).0.contains_key(other) == v.sessions.contains_key(other),
        v.sessions.contains_key(other) ==> backspace_step(v.sessions, id).0[other] == v.sessions[other],
{
}

/// A keystroke the composer buffers is taken back by one backspace: the
/// session returns to the composed text and raw input it had before (and is
/// dropped if it had none), and every other session is as it was.
pub proof fn lemma_backspace_undoes_keystroke(v: ComposerView, id: Seq<char>, key: char)
    requires
        v.valid(),
        key_step(v, id, key).1 == Outcome::Consumed,
    ensures
        ({
            let (after, out) = backspace_step(key_step(v, id, key).0, id);
            let before = v.buffer_of(id);
            &&& out == Outcome::Consumed
            &&& !is_blank(before) ==> after.contains_key(id) && after[id].buffer.current == before.current
                && after[id].buffer.raw == before.raw
            &&& is_blank(before) ==> !after.contains_key(id)
            &&& forall|k: Seq<char>| k != id ==> after.contains_key(k) == v.sessions.contains_key(k)
            &&& forall|k: Seq<char>| k != id && v.sessions.contains_key(k) ==> after[k] == v.sessions[k]
        }),
{
    let before = v.buffer_of(id);
    assert(synced(before));
    lemma_method_step(v.active, before, key);
    let (w, r) = method_step(v.active, before, key);
    lemma_pop_appended(before, w);
}

/// The central Vietnamese input orchestrator.
#[derive(Debug)]
pub struct VietnameseComposer {
    /// Per-session composition buffers, one per session id.
    buffers: Vec<CompositionBuffer>,
    /// The active input method; when `Off`, every keystroke passes through.
    active_method: InputMethod,
    /// The most recently active composing method (never `Off` once one was
    /// selected), restored when composition is toggled back on.
    last_active_method: InputMethod,
    telex: TelexEngine,
    vni: VniEngine,
    vni_windows: VniWindowsEngine,
    /// Normalizes composed output before it is emitted.
    normalizer: UnicodeNormalizer,
    /// Consecutive keystrokes whose processing exceeded [`PROCESSING_BUDGET`].
    consecutive_slow_keystrokes: u32,
    /// Whether a memory-overflow warning is currently in effect.
    memory_warning_active: bool,
}

impl View for VietnameseComposer {
    type V = ComposerView;

    closed spec fn view(&self) -> ComposerView {
        ComposerView {
            sessions: session_map(self.buffers@),
            active: self.active_method,
            last_active: self.last_active_method,
            form: self.normalizer.spec_form(),
            slow_keystrokes: self.consecutive_slow_keystrokes,
            memory_warning: self.memory_warning_active,
        }
    }
}

impl VietnameseComposer {
    #[verifier::type_invariant]
    spec fn inv(self) -> bool {
        &&& buffers_ok(self.buffers@)
        &&& self.last_active_method != InputMethod::Off
        &&& self.vni_windows.override_entries().len() == 0
    }

    proof fn lemma_valid(&self)
        requires
            buffers_ok(self.buffers@),
            self.last_active_method != InputMethod::Off,
        ensures
            self@.valid(),
    {
        lemma_map_len(self.buffers@);
        assert forall|k: Seq<char>| #[trigger] self@.sessions.contains_key(k) implies synced(self@.sessions[k].buffer)
            && self@.sessions[k].buffer.history.len() <= MAX_HISTORY_STEPS by {
            let j = index_of_id(self.buffers@, k);
            lemma_map_at(self.buffers@, j);
            assert(buffer_ok(self.buffers@[j]));
        }
    }

    /// A composer with composition disabled ([`InputMethod::Off`]), no
    /// sessions and NFC normalization.
    pub fn new() -> (r: Self)
        ensures
            r@.sessions == Map::<Seq<char>, SessionState>::empty(),
            r@.active == InputMethod::Off,
            r@.last_active == InputMethod::Telex,
            r@.form == NormalizationForm::Nfc,
            r@.slow_keystrokes == 0,
            !r@.memory_warning,
            r@.valid(),
    {
        let r = VietnameseComposer {
            buffers: Vec::new(),
            active_method: InputMethod::Off,
            last_active_method: InputMethod::Telex,
            telex: TelexEngine::new(),
            vni: VniEngine::new(),
            vni_windows: VniWindowsEngine::new(),
            normalizer: UnicodeNormalizer::new(),
            consecutive_slow_keystrokes: 0,
            memory_warning_active: false,
        };
        proof {
            lemma_map_empty(r.buffers@);
            r.lemma_valid();
        }
        r
    }

    /// A composer with the given starting input method, no sessions and NFC
    /// normalization.
    pub fn with_method(method: InputMethod) -> (r: Self)
        ensures
            r@.sessions == Map::<Seq<char>, SessionState>::empty(),
            (r@.active, r@.last_active) == select_model(method, InputMethod::Telex),
            r@.form == NormalizationForm::Nfc,
            r@.slow_keystrokes == 0,
            !r@.memory_warning,
            r@.valid(),
    {
        let mut composer = Self::new();
        composer.set_method(method);
        composer
    }

    /// The currently active input method.
    pub fn active_method(&self) -> (r: InputMethod)
        ensures
            r == self@.active,
    {
        self.active_method
    }

    /// Set the active input method. Sessions are preserved; a composing
    /// method is remembered as the last-active one.
    pub fn set_method(&mut self, method: InputMethod)
        ensures
            (final(self)@.active, final(self)@.last_active) == select_model(method, old(self)@.last_active),
            final(self)@.sessions == old(self)@.sessions,
            final(self)@.form == old(self)@.form,
            final(self)@.slow_keystrokes == old(self)@.slow_keystrokes,
            final(self)@.memory_warning == old(self)@.memory_warning,
            final(self)@.valid(),
    {
        proof {
            use_type_invariant(&*self);
        }
        self.active_method = method;
        if method != InputMethod::Off {
            self.last_active_method = method;
        }
        proof {
            use_type_invariant(&*self);
            self.lemma_valid();
        }
    }

    /// Advance to the next method in the order
    /// `Telex → VNI → VNI Windows → Off → Telex`, and return it. Sessions are
    /// preserved.
    pub fn cycle_method(&mut self) -> (r: InputMethod)
        ensures
            r == next_method(old(self)@.active),
            (final(self)@.active, final(self)@.last_active) == select_model(r, old(self)@.last_active),
            final(self)@.sessions == old(self)@.sessions,
            final(self)@.form == old(self)@.form,
            final(self)@.slow_keystrokes == old(self)@.slow_keystrokes,
            final(self)@.memory_warning == old(self)@.memory_warning,
            final(self)@.valid(),
    {
        let next = match self.active_method {
            InputMethod::Telex => InputMethod::Vni,
            InputMethod::Vni => InputMethod::VniWindows,
            InputMethod::VniWindows => InputMethod::Off,
            InputMethod::Off => InputMethod::Telex,
        };
        self.set_method(next);
        next
    }

    /// Toggle composition off (remembering the active method) or back on
    /// (restoring the last-active method), and return the new active method.
    /// The remembered method is always a composing one, so toggling from off
    /// turns composition on. Sessions are preserved.
    pub fn toggle_method(&mut self) -> (r: InputMethod)
        ensures
            old(self)@.valid(),
            (final(self)@.active, final(self)@.last_active) == toggle_model(old(self)@.active, old(self)@.last_active),
            r == final(self)@.active,
            final(self)@.sessions == old(self)@.sessions,
            final(self)@.form == old(self)@.form,
            final(self)@.slow_keystrokes == old(self)@.slow_keystrokes,
            final(self)@.memory_warning == old(self)@.memory_warning,
            final(self)@.valid(),
    {
        proof {
            use_type_invariant(&*self);
            self.lemma_valid();
        }
        if self.active_method == InputMethod::Off {
            let restore = self.last_active_method;
            self.active_method = restore;
        } else {
            self.last_active_method = self.active_method;
            self.active_method = InputMethod::Off;
        }
        proof {
            use_type_invariant(&*self);
            self.lemma_valid();
        }
        self.active_method
    }

    /// Set the normalization form applied to composed output.
    pub fn set_normalization(&mut self, form: NormalizationForm)
        ensures
            final(self)@.form == form,
            final(self)@.sessions == old(self)@.sessions,
            final(self)@.active == old(self)@.active,
            final(self)@.last_active == old(self)@.last_active,
            final(self)@.slow_keystrokes == old(self)@.slow_keystrokes,
            final(self)@.memory_warning == old(self)@.memory_warning,
    {
        proof {
            use_type_invariant(&*self);
        }
        self.normalizer = UnicodeNormalizer::with_form(form);
    }

    /// Run the active engine on one buffer.
    fn run_engine(&self, buffer: &mut CompositionBuffer, key: char) -> (r: TransformResult)
        requires
            self@.active != InputMethod::Off,
        ensures
            (final(buffer)@, r) == method_step(self@.active, old(buffer)@, key),
            final(buffer).same_identity(*old(buffer)),
            final(buffer).last_keystroke == old(buffer).last_keystroke,
    {
        proof {
            use_type_invariant(self);
            assert(self.vni_windows.override_entries() =~= Seq::<((char, char), char)>::empty());
        }
        match self.active_method {
            InputMethod::Telex => self.telex.process_key(buffer, key),
            InputMethod::Vni => self.vni.process_key(buffer, key),
            _ => self.vni_windows.process_key(buffer, key),
        }
    }

    /// Route one keystroke (see [`key_step`]), without the resource guards.
    fn process_key_inner(&mut self, session_id: &str, key: char) -> (r: ComposerResult)
        ensures
            final(self)@.sessions == key_step(old(self)@, session_id@, key).0,
            result_is(r, key_step(old(self)@, session_id@, key).1),
            final(self)@.active == old(self)@.active,
            final(self)@.last_active == old(self)@.last_active,
            final(self)@.form == old(self)@.form,
            final(self)@.slow_keystrokes == old(self)@.slow_keystrokes,
            final(self)@.memory_warning == old(self)@.memory_warning,
    {
        proof {
            use_type_invariant(&*self);
        }
        if self.active_method == InputMethod::Off {
            return ComposerResult::PassThrough(passthrough_event(key));
        }
        let ghost v0 = self@;
        let id = session_id.to_owned();
        let mut bs: Vec<CompositionBuffer> = Vec::new();
        std::mem::swap(&mut bs, &mut self.buffers);
        let ghost bs0 = bs@;
        let idx = open_session(&mut bs, &id);
        let ghost bs1 = bs@;
        let ghost before = v0.buffer_of(id@);
        assert(bs1[idx as int]@ == before);
        assert(buffer_ok(bs1[idx as int]));
        let result = {
            let buffer = &mut bs[idx];
            buffer.touch();
            self.run_engine(buffer, key)
        };
        let ghost bs2 = bs@;
        proof {
            lemma_method_step(v0.active, before, key);
            lemma_ok_update(bs1, idx as int, bs2[idx as int]);
            assert(bs2 == bs1.update(idx as int, bs2[idx as int]));
            assert(session_map(bs2) =~= v0.sessions.insert(id@, state_of(bs2[idx as int])));
        }
        match result {
            TransformResult::CommitAndPass(t) => {
                let out = if bs[idx].is_empty() {
                    ComposerResult::PassThrough(passthrough_event(t))
                } else {
                    let composed = bs[idx].commit();
                    let mut text = self.normalizer.normalize(composed.as_str());
                    push_char(&mut text, t);
                    ComposerResult::Compose(text)
                };
                let ghost bs3 = bs@;
                proof {
                    assert(bs3[idx as int].session_id@ == id@);
                    lemma_map_remove(bs3, idx as int);
                    assert(bs3.remove(idx as int) =~= bs2.remove(idx as int)) by {
                        assert forall|j: int| 0 <= j < bs3.remove(idx as int).len() implies bs3.remove(idx as int)[j]
                            == bs2.remove(idx as int)[j] by {
                            let j0 = if j < idx { j } else { j + 1 };
                            assert(bs3[j0] == bs2[j0]);
                        }
                    }
                    lemma_ok_remove(bs2, idx as int);
                    assert(session_map(bs2.remove(idx as int)) =~= v0.sessions.remove(id@));
                }
                bs.remove(idx);
                self.buffers = bs;
                out
            },
            TransformResult::InvalidSequence => {
                let raw = bs[idx].flush_raw();
                let ghost bs3 = bs@;
                proof {
                    lemma_ok_update(bs2, idx as int, bs3[idx as int]);
                    assert(bs3 == bs2.update(idx as int, bs3[idx as int]));
                    assert(session_map(bs3) =~= v0.sessions.insert(
                        id@,
                        SessionState { buffer: empty_view(), touched: false },
                    ));
                }
                self.buffers = bs;
                ComposerResult::Flush(raw)
            },
            _ => {
                self.buffers = bs;
                ComposerResult::Consumed
            },
        }
    }

    /// Process one typed character for the given session (see
    /// [`key_step`]): the sessions change, and the result is returned, as
    /// that model says. The keystroke's processing time is then checked
    /// against [`PROCESSING_BUDGET`] and memory use against
    /// [`MEMORY_LIMIT_BYTES`]; these guards never alter the result.
    pub fn process_key(&mut self, session_id: &str, key: char) -> (r: ComposerResult)
        ensures
            final(self)@.sessions == key_step(old(self)@, session_id@, key).0,
            result_is(r, key_step(old(self)@, session_id@, key).1),
            final(self)@.active == old(self)@.active,
            final(self)@.last_active == old(self)@.last_active,
            final(self)@.form == old(self)@.form,
            final(self)@.slow_keystrokes == 0 || final(self)@.slow_keystrokes == slow_count_after(
                old(self)@.slow_keystrokes,
                (PROCESSING_BUDGET + 1) as u128,
            ),
            final(self)@.valid(),
    {
        let start = crate::buffer::now();
        let result = self.process_key_inner(session_id, key);
        let elapsed = crate::buffer::nanos_since(&start);
        self.guard_processing_time(session_id, key, elapsed);
        self.guard_memory_usage();
        proof {
            use_type_invariant(&*self);
            self.lemma_valid();
        }
        result
    }

    /// Record how long one keystroke took to process: a keystroke within
    /// [`PROCESSING_BUDGET`] resets the count of consecutive slow keystrokes;
    /// one over budget increments it (saturating). The session id and key
    /// identify the keystroke and do not affect the count.
    pub fn guard_processing_time(&mut self, session_id: &str, key: char, elapsed_nanos: u128)
        ensures
            final(self)@.slow_keystrokes == slow_count_after(old(self)@.slow_keystrokes, elapsed_nanos),
            final(self)@.sessions == old(self)@.sessions,
            final(self)@.active == old(self)@.active,
            final(self)@.last_active == old(self)@.last_active,
            final(self)@.form == old(self)@.form,
            final(self)@.memory_warning == old(self)@.memory_warning,
    {
        proof {
            use_type_invariant(&*self);
        }
        if elapsed_nanos <= PROCESSING_BUDGET {
            self.consecutive_slow_keystrokes = 0;
            return;
        }
        self.consecutive_slow_keystrokes = self.consecutive_slow_keystrokes.saturating_add(1);
    }

    /// The number of consecutive keystrokes processed over budget.
    pub fn consecutive_slow_keystrokes(&self) -> (r: u32)
        ensures
            r == self@.slow_keystrokes,
    {
        self.consecutive_slow_keystrokes
    }

    /// Note whether memory use is over the limit: the warning flag is set to
    /// whether the estimated usage (see
    /// [`estimated_memory_bytes`](Self::estimated_memory_bytes)) exceeds
    /// [`MEMORY_LIMIT_BYTES`].
    fn guard_memory_usage(&mut self)
        ensures
            exists|cs: Seq<BufferCapacities>|
                #[trigger] old(self).capacities_fit(cs) && cs.len() == old(self)@.sessions.len()
                    && final(self)@.memory_warning == (capacity_total(cs) > MEMORY_LIMIT_BYTES),
            final(self)@.sessions == old(self)@.sessions,
            final(self)@.active == old(self)@.active,
            final(self)@.last_active == old(self)@.last_active,
            final(self)@.form == old(self)@.form,
            final(self)@.slow_keystrokes == old(self)@.slow_keystrokes,
    {
        proof {
            use_type_invariant(&*self);
        }
        let over = self.is_over_memory_limit();
        self.memory_warning_active = over;
    }

    /// The capacities `cs` could have been read from this composer's
    /// buffers: one record per session, in the composer's internal order.
    pub closed spec fn capacities_fit(&self, cs: Seq<BufferCapacities>) -> bool {
        &&& cs.len() == self.buffers@.len()
        &&& forall|i: int| 0 <= i < cs.len() ==> capacities_of_buffer(#[trigger] cs[i], self.buffers@[i])
    }

    /// Capacities read from this composer cover each session's text: the
    /// total is at least the length of every session's composed text and
    /// the byte size of its raw input (at most `usize::MAX`).
    pub proof fn lemma_capacities_cover_sessions(&self, cs: Seq<BufferCapacities>)
        requires
            self.capacities_fit(cs),
        ensures
            forall|k: Seq<char>|
                #[trigger] self@.sessions.contains_key(k) ==> capacity_total(cs) >= self@.sessions[k].buffer.current.len()
                    && capacity_total(cs) >= sat(4 * self@.sessions[k].buffer.raw.len() as int),
    {
        assert forall|k: Seq<char>| #[trigger] self@.sessions.contains_key(k) implies capacity_total(cs)
            >= self@.sessions[k].buffer.current.len() && capacity_total(cs) >= sat(
            4 * self@.sessions[k].buffer.raw.len() as int,
        ) by {
            let bs = self.buffers@;
            assert(has_id(bs, k));
            let j = index_of_id(bs, k);
            assert(capacities_of_buffer(cs[j], bs[j]));
            lemma_buffer_total_ge(cs[j]);
            lemma_capacity_total_ge(cs, j, cs[j].current as int);
            lemma_capacity_total_ge(cs, j, sat(cs[j].raw * 4));
        }
    }

    /// Estimated memory, in bytes, held by the composer: its own struct plus
    /// the footprint of every session's buffer (string and vector capacities
    /// included), added with saturation (see [`capacity_total`]); the
    /// capacities are read from the allocator, one record per session. With
    /// no sessions it is the size of the composer struct.
    pub fn estimated_memory_bytes(&self) -> (r: usize)
        ensures
            exists|cs: Seq<BufferCapacities>|
                #[trigger] capacity_total(cs) == r && cs.len() == self@.sessions.len() && self.capacities_fit(cs),
            r >= vstd::layout::size_of::<VietnameseComposer>(),
            self@.sessions.len() == 0 ==> r == vstd::layout::size_of::<VietnameseComposer>(),
    {
        proof {
            use_type_invariant(self);
            lemma_map_len(self.buffers@);
        }
        let mut caps: Vec<BufferCapacities> = Vec::new();
        let mut i: usize = 0;
        while i < self.buffers.len()
            invariant
                i <= self.buffers@.len(),
                caps@.len() == i,
                forall|j: int| 0 <= j < i ==> capacities_of_buffer(#[trigger] caps@[j], self.buffers@[j]),
            decreases self.buffers@.len() - i,
        {
            caps.push(capacities_of(&self.buffers[i]));
            i += 1;
        }
        let total = estimate_from_capacities(&caps);
        let base = std::mem::size_of::<VietnameseComposer>();
        proof {
            lemma_capacity_total_floor(caps@);
            assert(self.capacities_fit(caps@));
            if self@.sessions.len() == 0 {
                assert(caps@ =~= Seq::<BufferCapacities>::empty());
            }
        }
        total
    }

    /// `true` when the estimated memory exceeds [`MEMORY_LIMIT_BYTES`]. With
    /// no sessions this compares the composer struct's own size.
    pub fn is_over_memory_limit(&self) -> (r: bool)
        ensures
            self@.sessions.len() == 0 ==> r == (vstd::layout::size_of::<VietnameseComposer>() > MEMORY_LIMIT_BYTES),
            exists|cs: Seq<BufferCapacities>|
                #[trigger] self.capacities_fit(cs) && cs.len() == self@.sessions.len() && r == (capacity_total(cs)
                    > MEMORY_LIMIT_BYTES),
    {
        let used = self.estimated_memory_bytes();
        exceeds_memory_limit(used)
    }

    /// Undo the most recent transformation of a session's composition
    /// (backspace); see [`backspace_step`]. When nothing is left to undo the
    /// backspace passes through.
    pub fn handle_backspace(&mut self, session_id: &str) -> (r: ComposerResult)
        ensures
            final(self)@.sessions == backspace_step(old(self)@.sessions, session_id@).0,
            result_is(r, backspace_step(old(self)@.sessions, session_id@).1),
            final(self)@.active == old(self)@.active,
            final(self)@.last_active == old(self)@.last_active,
            final(self)@.form == old(self)@.form,
            final(self)@.slow_keystrokes == old(self)@.slow_keystrokes,
            final(self)@.memory_warning == old(self)@.memory_warning,
            final(self)@.valid(),
    {
        proof {
            use_type_invariant(&*self);
        }
        let ghost v0 = self@;
        let id = session_id.to_owned();
        let mut bs: Vec<CompositionBuffer> = Vec::new();
        std::mem::swap(&mut bs, &mut self.buffers);
        let ghost bs0 = bs@;
        let r = match find_session(&bs, &id) {
            None => ComposerResult::PassThrough(passthrough_event(BACKSPACE)),
            Some(i) => {
                proof {
                    lemma_map_at(bs0, i as int);
                    assert(buffer_ok(bs0[i as int]));
                    lemma_pop_ok(bs0[i as int]@);
                }
                let reverted = bs[i].pop_step().is_some();
                let ghost bs1 = bs@;
                proof {
                    lemma_ok_update(bs0, i as int, bs1[i as int]);
                    assert(bs1 == bs0.update(i as int, bs1[i as int]));
                }
                if bs[i].is_empty() {
                    proof {
                        lemma_ok_remove(bs1, i as int);
                        assert(session_map(bs1.remove(i as int)) =~= v0.sessions.remove(id@));
                    }
                    bs.remove(i);
                } else {
                    proof {
                        assert(session_map(bs1) =~= backspace_step(v0.sessions, id@).0);
                    }
                }
                if reverted {
                    ComposerResult::Consumed
                } else {
                    ComposerResult::PassThrough(passthrough_event(BACKSPACE))
                }
            },
        };
        self.buffers = bs;
        proof {
            use_type_invariant(&*self);
            self.lemma_valid();
        }
        r
    }

    /// The in-flight composed text of a session, or `None` when it has no
    /// buffer or its buffer holds nothing.
    pub fn get_buffer_content(&self, session_id: &str) -> (r: Option<&str>)
        ensures
            match r {
                Some(s) => self@.sessions.contains_key(session_id@) && !is_blank(
                    self@.sessions[session_id@].buffer,
                ) && s@ == self@.sessions[session_id@].buffer.current,
                None => !self@.sessions.contains_key(session_id@) || is_blank(
                    self@.sessions[session_id@].buffer,
                ),
            },
    {
        proof {
            use_type_invariant(self);
        }
        let id = session_id.to_owned();
        match find_session(&self.buffers, &id) {
            Some(i) => {
                proof {
                    lemma_map_at(self.buffers@, i as int);
                }
                if self.buffers[i].is_empty() {
                    None
                } else {
                    Some(self.buffers[i].current_text())
                }
            },
            None => None,
        }
    }

    /// Flush a session's in-flight composition as raw keystrokes: the raw
    /// text (empty if nothing was buffered), or `None` when the session has
    /// no buffer. The session keeps an empty buffer.
    pub fn flush_session(&mut self, session_id: &str) -> (r: Option<String>)
        ensures
            match r {
                Some(raw) => old(self)@.sessions.contains_key(session_id@) && raw@ == old(
                    self,
                )@.sessions[session_id@].buffer.raw && final(self)@.sessions == old(self)@.sessions.insert(
                    session_id@,
                    SessionState { buffer: empty_view(), touched: false },
                ),
                None => !old(self)@.sessions.contains_key(session_id@) && final(self)@.sessions == old(
                    self,
                )@.sessions,
            },
            final(self)@.active == old(self)@.active,
            final(self)@.last_active == old(self)@.last_active,
            final(self)@.form == old(self)@.form,
            final(self)@.slow_keystrokes == old(self)@.slow_keystrokes,
            final(self)@.memory_warning == old(self)@.memory_warning,
            final(self)@.valid(),
    {
        proof {
            use_type_invariant(&*self);
        }
        let ghost v0 = self@;
        let id = session_id.to_owned();
        let mut bs: Vec<CompositionBuffer> = Vec::new();
        std::mem::swap(&mut bs, &mut self.buffers);
        let ghost bs0 = bs@;
        let r = match find_session(&bs, &id) {
            None => None,
            Some(i) => {
                proof {
                    lemma_map_at(bs0, i as int);
                    assert(buffer_ok(bs0[i as int]));
                }
                let raw = bs[i].flush_raw();
                proof {
                    lemma_ok_update(bs0, i as int, bs@[i as int]);
                    assert(bs@ == bs0.update(i as int, bs@[i as int]));
                }
                Some(raw)
            },
        };
        self.buffers = bs;
        proof {
            use_type_invariant(&*self);
            self.lemma_valid();
        }
        r
    }

    /// Flush one session's in-flight composition as raw keystrokes if it has
    /// been idle for at least `timeout_nanos` nanoseconds, and drop its
    /// buffer (see [`flushed_one`]); the idle time is read from the clock.
    /// Returns `None`, changing nothing, when the session has no buffer, its
    /// buffer holds nothing or has no recorded keystroke, or it is not yet
    /// stale; with a zero timeout every other session is flushed.
    pub fn flush_if_timed_out(&mut self, session_id: &str, timeout_nanos: u128) -> (r: Option<String>)
        ensures
            exists|elapsed: u128|
                #[trigger] flushed_one(
                    old(self)@.sessions,
                    final(self)@.sessions,
                    session_id@,
                    elapsed,
                    timeout_nanos,
                    opt_chars(r),
                ),
            match r {
                Some(raw) => old(self)@.sessions.contains_key(session_id@) && !is_blank(
                    old(self)@.sessions[session_id@].buffer,
                ) && old(self)@.sessions[session_id@].touched && raw@ == old(
                    self,
                )@.sessions[session_id@].buffer.raw && final(self)@.sessions == old(self)@.sessions.remove(
                    session_id@,
                ),
                None => final(self)@.sessions == old(self)@.sessions && (timeout_nanos == 0 ==> !(old(
                    self,
                )@.sessions.contains_key(session_id@) && !is_blank(old(self)@.sessions[session_id@].buffer)
                    && old(self)@.sessions[session_id@].touched)),
            },
            final(self)@.active == old(self)@.active,
            final(self)@.last_active == old(self)@.last_active,
            final(self)@.form == old(self)@.form,
            final(self)@.slow_keystrokes == old(self)@.slow_keystrokes,
            final(self)@.memory_warning == old(self)@.memory_warning,
            final(self)@.valid(),
    {
        let id = session_id.to_owned();
        let elapsed = match find_session(&self.buffers, &id) {
            Some(i) => match &self.buffers[i].last_keystroke {
                Some(t) => crate::buffer::nanos_since(t),
                None => 0,
            },
            None => 0,
        };
        self.flush_if_timed_out_after(session_id, elapsed, timeout_nanos)
    }

    /// Flush one session's in-flight composition as raw keystrokes, and drop
    /// its buffer, when it holds something, has a recorded keystroke, and
    /// that keystroke was made `elapsed_nanos` nanoseconds ago, at least
    /// `timeout_nanos`; otherwise return `None` and change nothing (see
    /// [`flushed_one`]).
    pub fn flush_if_timed_out_after(&mut self, session_id: &str, elapsed_nanos: u128, timeout_nanos: u128) -> (r:
        Option<String>)
        ensures
            flushed_one(
                old(self)@.sessions,
                final(self)@.sessions,
                session_id@,
                elapsed_nanos,
                timeout_nanos,
                opt_chars(r),
            ),
            final(self)@.active == old(self)@.active,
            final(self)@.last_active == old(self)@.last_active,
            final(self)@.form == old(self)@.form,
            final(self)@.slow_keystrokes == old(self)@.slow_keystrokes,
            final(self)@.memory_warning == old(self)@.memory_warning,
            final(self)@.valid(),
    {
        proof {
            use_type_invariant(&*self);
        }
        let ghost v0 = self@;
        let id = session_id.to_owned();
        let mut bs: Vec<CompositionBuffer> = Vec::new();
        std::mem::swap(&mut bs, &mut self.buffers);
        let ghost bs0 = bs@;
        let r = match find_session(&bs, &id) {
            None => None,
            Some(i) => {
                proof {
                    lemma_map_at(bs0, i as int);
                    assert(buffer_ok(bs0[i as int]));
                }
                if !bs[i].is_timed_out_after(elapsed_nanos, timeout_nanos) {
                    None
                } else {
                    let raw = bs[i].flush_raw();
                    proof {
                        lemma_ok_update(bs0, i as int, bs@[i as int]);
                        assert(bs@ == bs0.update(i as int, bs@[i as int]));
                        lemma_ok_remove(bs@, i as int);
                        assert(session_map(bs@.remove(i as int)) =~= v0.sessions.remove(id@));
                    }
                    bs.remove(i);
                    Some(raw)
                }
            },
        };
        self.buffers = bs;
        proof {
            use_type_invariant(&*self);
            self.lemma_valid();
        }
        r
    }

    /// Clear and remove a session's buffer (the session closed).
    pub fn clear_session(&mut self, session_id: &str)
        ensures
            old(self)@.valid(),
            final(self)@.sessions == old(self)@.sessions.remove(session_id@),
            final(self)@.active == old(self)@.active,
            final(self)@.last_active == old(self)@.last_active,
            final(self)@.form == old(self)@.form,
            final(self)@.slow_keystrokes == old(self)@.slow_keystrokes,
            final(self)@.memory_warning == old(self)@.memory_warning,
            final(self)@.valid(),
    {
        proof {
            use_type_invariant(&*self);
            self.lemma_valid();
        }
        let ghost v0 = self@;
        let id = session_id.to_owned();
        let mut bs: Vec<CompositionBuffer> = Vec::new();
        std::mem::swap(&mut bs, &mut self.buffers);
        let ghost bs0 = bs@;
        match find_session(&bs, &id) {
            None => {
                proof {
                    assert(v0.sessions.remove(id@) =~= v0.sessions);
                }
            },
            Some(i) => {
                proof {
                    lemma_ok_remove(bs0, i as int);
                }
                bs.remove(i);
            },
        }
        self.buffers = bs;
        proof {
            use_type_invariant(&*self);
            self.lemma_valid();
        }
    }

    /// The number of sessions that have a composition buffer.
    pub fn session_count(&self) -> (r: usize)
        ensures
            r == self@.sessions.len(),
            self@.valid(),
    {
        proof {
            use_type_invariant(self);
            lemma_map_len(self.buffers@);
            self.lemma_valid();
        }
        self.buffers.len()
    }

    /// `true` if the session has a composition buffer.
    pub fn has_session(&self, session_id: &str) -> (r: bool)
        ensures
            r == self@.sessions.contains_key(session_id@),
            self@.valid(),
    {
        proof {
            use_type_invariant(self);
            self.lemma_valid();
        }
        let id = session_id.to_owned();
        find_session(&self.buffers, &id).is_some()
    }

    /// Flush every session's in-flight composition as raw keystrokes,
    /// however long it has been idle, and drop every buffer (empty ones
    /// included). Returns one (session id, raw text) pair for each session
    /// whose buffer held something.
    pub fn flush_all_sessions(&mut self) -> (r: Vec<(String, String)>)
        ensures
            flushed_from(old(self)@.sessions, pair_views(r@)),
            forall|k: Seq<char>|
                #![trigger old(self)@.sessions[k]]
                old(self)@.sessions.contains_key(k) && !is_blank(old(self)@.sessions[k].buffer) ==> listed(
                    pair_views(r@),
                    k,
                ),
            final(self)@.sessions == Map::<Seq<char>, SessionState>::empty(),
            final(self)@.active == old(self)@.active,
            final(self)@.last_active == old(self)@.last_active,
            final(self)@.form == old(self)@.form,
            final(self)@.slow_keystrokes == old(self)@.slow_keystrokes,
            final(self)@.memory_warning == old(self)@.memory_warning,
            final(self)@.valid(),
    {
        proof {
            use_type_invariant(&*self);
        }
        let ghost m = self@.sessions;
        let mut bs: Vec<CompositionBuffer> = Vec::new();
        std::mem::swap(&mut bs, &mut self.buffers);
        let ghost bs0 = bs@;
        let mut out: Vec<(String, String)> = Vec::new();
        while bs.len() > 0
            invariant
                buffers_ok(bs0),
                m == session_map(bs0),
                bs@.len() <= bs0.len(),
                bs@ == bs0.subrange(0, bs@.len() as int),
                flushed_from(m, pair_views(out@)),
                forall|i: int| 0 <= i < out@.len() ==> !has_id(bs@, #[trigger] pair_views(out@)[i].0),
                forall|k: Seq<char>|
                    #![trigger m[k]]
                    m.contains_key(k) && !is_blank(m[k].buffer) ==> has_id(bs@, k) || listed(pair_views(out@), k),
            decreases bs@.len(),
        {
            let ghost bs_before = bs@;
            let ghost out_before = pair_views(out@);
            let mut b = bs.pop().unwrap();
            let ghost n = bs@.len() as int;
            let ghost k = b.session_id@;
            proof {
                assert(b == bs0[n]);
                lemma_map_at(bs0, n);
                assert(bs@ =~= bs0.subrange(0, n));
                assert(!has_id(bs@, k)) by {
                    if has_id(bs@, k) {
                        let j = index_of_id(bs@, k);
                        assert(bs@[j] == bs0[j]);
                    }
                }
                assert(!listed(out_before, k)) by {
                    if listed(out_before, k) {
                        let i = choose|i: int| #![trigger out_before[i]] 0 <= i < out_before.len() && out_before[i].0 == k;
                        assert(!has_id(bs_before, out_before[i].0));
                        assert(bs_before[n] == b);
                    }
                }
            }
            if !b.is_empty() {
                let raw = b.flush_raw();
                proof {
                    lemma_pair_views_push(out@, (b.session_id, raw));
                }
                out.push((b.session_id, raw));
            }
            proof {
                let outv = pair_views(out@);
                assert forall|i: int| 0 <= i < outv.len() implies !has_id(bs@, #[trigger] outv[i].0) by {
                    if i < out_before.len() {
                        assert(outv[i] == out_before[i]);
                        if has_id(bs@, outv[i].0) {
                            let j = index_of_id(bs@, outv[i].0);
                            assert(bs@[j] == bs_before[j]);
                        }
                    }
                }
                assert forall|kk: Seq<char>|
                    #![trigger m[kk]]
                    m.contains_key(kk) && !is_blank(m[kk].buffer) implies has_id(bs@, kk) || listed(outv, kk) by {
                    if has_id(bs_before, kk) {
                        let j = index_of_id(bs_before, kk);
                        if j < n {
                            assert(bs@[j] == bs_before[j]);
                        } else {
                            assert(outv[outv.len() - 1].0 == kk);
                        }
                    } else {
                        let i = choose|i: int| #![trigger out_before[i]] 0 <= i < out_before.len() && out_before[i].0 == kk;
                        assert(outv[i] == out_before[i]);
                    }
                }
            }
        }
        self.buffers = bs;
        proof {
            lemma_map_empty(self.buffers@);
            use_type_invariant(&*self);
            self.lemma_valid();
        }
        out
    }

    /// Flush every session whose in-flight composition has been idle for at
    /// least `timeout_nanos` nanoseconds (as
    /// [`flush_if_timed_out`](Self::flush_if_timed_out) does for one),
    /// returning a (session id, raw text) pair for each. The idle times are
    /// read from the clock, one for every session with a recorded keystroke
    /// (see [`flushed_stale`]). Every other session is kept as it was; with a
    /// zero timeout every session whose buffer holds something and has a
    /// recorded keystroke is flushed.
    pub fn flush_timed_out_sessions(&mut self, timeout_nanos: u128) -> (r: Vec<(String, String)>)
        ensures
            exists|idle: Seq<(Seq<char>, u128)>|
                covers(old(self)@.sessions, idle) && #[trigger] flushed_stale(
                    old(self)@.sessions,
                    final(self)@.sessions,
                    pair_views(r@),
                    idle,
                    timeout_nanos,
                ),
            flushed_from(old(self)@.sessions, pair_views(r@)),
            forall|i: int| #![trigger pair_views(r@)[i]]
                0 <= i < r@.len() ==> old(self)@.sessions[pair_views(r@)[i].0].touched,
            final(self)@.sessions == old(self)@.sessions.filter_keys(|k: Seq<char>| !listed(pair_views(r@), k)),
            timeout_nanos == 0 ==> forall|k: Seq<char>|
                #![trigger old(self)@.sessions[k]]
                old(self)@.sessions.contains_key(k) && !is_blank(old(self)@.sessions[k].buffer) && old(
                    self,
                )@.sessions[k].touched ==> listed(pair_views(r@), k),
            final(self)@.active == old(self)@.active,
            final(self)@.last_active == old(self)@.last_active,
            final(self)@.form == old(self)@.form,
            final(self)@.slow_keystrokes == old(self)@.slow_keystrokes,
            final(self)@.memory_warning == old(self)@.memory_warning,
            final(self)@.valid(),
    {
        proof {
            use_type_invariant(&*self);
        }
        let ghost m = self@.sessions;
        let mut idle: Vec<(String, u128)> = Vec::new();
        let mut i: usize = 0;
        while i < self.buffers.len()
            invariant
                i <= self.buffers@.len(),
                buffers_ok(self.buffers@),
                m == session_map(self.buffers@),
                forall|j: int|
                    0 <= j < i && (#[trigger] self.buffers@[j]).last_keystroke is Some ==> idle_of(
                        idle_views(idle@),
                        self.buffers@[j].session_id@,
                    ) is Some,
            decreases self.buffers@.len() - i,
        {
            let ghost before = idle_views(idle@);
            if let Some(t) = &self.buffers[i].last_keystroke {
                let e = crate::buffer::nanos_since(t);
                idle.push((self.buffers[i].session_id.clone(), e));
                proof {
                    assert(idle_views(idle@).drop_last() =~= before);
                }
            }
            proof {
                assert forall|k: Seq<char>| idle_of(before, k) is Some implies idle_of(idle_views(idle@), k) is Some by {
                    if idle_views(idle@) != before {
                        assert(idle_views(idle@).drop_last() =~= before);
                    }
                }
            }
            i += 1;
        }
        proof {
            assert forall|k: Seq<char>| m.contains_key(k) && m[k].touched implies idle_of(idle_views(idle@), k) is Some by {
                let j = index_of_id(self.buffers@, k);
                lemma_map_at(self.buffers@, j);
                assert(self.buffers@[j].last_keystroke is Some);
            }
        }
        let r = self.flush_timed_out_sessions_with(&idle, timeout_nanos);
        proof {
            let out = pair_views(r@);
            assert forall|ii: int| #![trigger out[ii]] 0 <= ii < r@.len() implies m[out[ii].0].touched by {
                assert(listed(out, out[ii].0));
            }
            if timeout_nanos == 0 {
                assert forall|k: Seq<char>|
                    #![trigger m[k]]
                    m.contains_key(k) && !is_blank(m[k].buffer) && m[k].touched implies listed(out, k) by {
                    assert(stale(m, idle_views(idle@), 0, k));
                }
            }
            assert(covers(m, idle_views(idle@)));
        }
        r
    }

    /// Flush every session that holds something, has a recorded keystroke,
    /// and whose idle time in `idle` (the last entry for its id) is at least
    /// `timeout_nanos`, returning a (session id, raw text) pair for each and
    /// removing them; every other session is kept as it was (see
    /// [`flushed_stale`]).
    pub fn flush_timed_out_sessions_with(&mut self, idle: &Vec<(String, u128)>, timeout_nanos: u128) -> (r: Vec<(
        String,
        String,
    )>)
        ensures
            flushed_stale(
                old(self)@.sessions,
                final(self)@.sessions,
                pair_views(r@),
                idle_views(idle@),
                timeout_nanos,
            ),
            final(self)@.active == old(self)@.active,
            final(self)@.last_active == old(self)@.last_active,
            final(self)@.form == old(self)@.form,
            final(self)@.slow_keystrokes == old(self)@.slow_keystrokes,
            final(self)@.memory_warning == old(self)@.memory_warning,
            final(self)@.valid(),
    {
        proof {
            use_type_invariant(&*self);
        }
        let ghost m = self@.sessions;
        let mut bs: Vec<CompositionBuffer> = Vec::new();
        std::mem::swap(&mut bs, &mut self.buffers);
        let ghost bs0 = bs@;
        let mut kept: Vec<CompositionBuffer> = Vec::new();
        let mut out: Vec<(String, String)> = Vec::new();
        while bs.len() > 0
            invariant
                buffers_ok(bs0),
                m == session_map(bs0),
                bs@.len() <= bs0.len(),
                bs@ == bs0.subrange(0, bs@.len() as int),
                buffers_ok(kept@),
                flushed_from(m, pair_views(out@)),
                forall|i: int| #![trigger pair_views(out@)[i]]
                    0 <= i < out@.len() ==> stale(m, idle_views(idle@), timeout_nanos, pair_views(out@)[i].0)
                        && !has_id(bs@, pair_views(out@)[i].0) && !has_id(kept@, pair_views(out@)[i].0),
                forall|k: Seq<char>|
                    #![trigger has_id(kept@, k)]
                    has_id(kept@, k) ==> m.contains_key(k) && !has_id(bs@, k) && session_map(kept@)[k] == m[k],
                forall|k: Seq<char>|
                    #![trigger m.dom().contains(k)]
                    m.dom().contains(k) ==> has_id(bs@, k) || listed(pair_views(out@), k) || has_id(kept@, k),
                forall|k: Seq<char>|
                    #![trigger has_id(kept@, k)]
                    has_id(kept@, k) ==> !stale(m, idle_views(idle@), timeout_nanos, k),
            decreases bs@.len(),
        {
            let ghost bs_before = bs@;
            let ghost out_before = pair_views(out@);
            let ghost kept_before = kept@;
            let mut b = bs.pop().unwrap();
            let ghost n = bs@.len() as int;
            let ghost k = b.session_id@;
            proof {
                assert(b == bs0[n]);
                lemma_map_at(bs0, n);
                assert(bs@ =~= bs0.subrange(0, n));
                assert(buffer_ok(bs0[n]));
                assert(!has_id(bs@, k)) by {
                    if has_id(bs@, k) {
                        let j = index_of_id(bs@, k);
                        assert(bs@[j] == bs0[j]);
                    }
                }
                assert(bs_before[n] == b);
                assert(has_id(bs_before, k));
                assert(!listed(out_before, k)) by {
                    if listed(out_before, k) {
                        let i = choose|i: int| #![trigger out_before[i]] 0 <= i < out_before.len() && out_before[i].0 == k;
                        assert(!has_id(bs_before, out_before[i].0));
                    }
                }
                assert(!has_id(kept_before, k));
            }
            let timed_out = match idle_lookup(idle, &b.session_id) {
                Some(e) => b.is_timed_out_after(e, timeout_nanos),
                None => false,
            };
            proof {
                assert(m[k] == state_of(b));
            }
            if timed_out {
                let raw = b.flush_raw();
                proof {
                    lemma_pair_views_push(out@, (b.session_id, raw));
                }
                out.push((b.session_id, raw));
            } else {
                proof {
                    lemma_ok_push(kept@, b);
                }
                kept.push(b);
            }
            proof {
                let outv = pair_views(out@);
                let grew = kept@.len() > kept_before.len();
                assert(grew ==> kept@ == kept_before.push(b));
                assert(!grew ==> kept@ == kept_before);
                assert(grew ==> outv == out_before);
                assert forall|kk: Seq<char>| #[trigger] has_id(kept@, kk) implies has_id(kept_before, kk) || (grew
                    && kk == k) by {
                    let j = index_of_id(kept@, kk);
                    if j < kept_before.len() {
                        assert(kept@[j] == kept_before[j]);
                    }
                }
                assert forall|kk: Seq<char>| #[trigger] has_id(kept_before, kk) implies has_id(kept@, kk) by {
                    let j = index_of_id(kept_before, kk);
                    assert(kept@[j] == kept_before[j]);
                }
                assert forall|i: int| #![trigger outv[i]] 0 <= i < outv.len() implies stale(m, idle_views(idle@), timeout_nanos, outv[i].0) && !has_id(
                    bs@,
                    outv[i].0,
                ) && !has_id(kept@, outv[i].0) by {
                    if i < out_before.len() {
                        assert(outv[i] == out_before[i]);
                        if has_id(bs@, outv[i].0) {
                            let j = index_of_id(bs@, outv[i].0);
                            assert(bs@[j] == bs_before[j]);
                        }
                    }
                }
                assert forall|kk: Seq<char>| #[trigger] has_id(kept@, kk) implies m.contains_key(kk) && !has_id(
                    bs@,
                    kk,
                ) && session_map(kept@)[kk] == m[kk] by {
                    if kk != k || !grew {
                        assert(has_id(kept_before, kk));
                        if has_id(bs@, kk) {
                            let j = index_of_id(bs@, kk);
                            assert(bs@[j] == bs_before[j]);
                        }
                    }
                }
                assert forall|kk: Seq<char>| #[trigger] m.dom().contains(kk) implies has_id(bs@, kk) || listed(
                    outv,
                    kk,
                ) || has_id(kept@, kk) by {
                    if has_id(bs_before, kk) {
                        let j = index_of_id(bs_before, kk);
                        if j < n {
                            assert(bs@[j] == bs_before[j]);
                        } else if grew {
                            assert(kept@[kept@.len() - 1] == b);
                        } else {
                            assert(outv[outv.len() - 1].0 == kk);
                        }
                    } else if listed(out_before, kk) {
                        let i = choose|i: int| #![trigger out_before[i]] 0 <= i < out_before.len() && out_before[i].0 == kk;
                        assert(outv[i] == out_before[i]);
                    } else {
                        assert(has_id(kept_before, kk));
                    }
                }
            }
        }
        proof {
            let outv = pair_views(out@);
            let km = session_map(kept@);
            let target = m.filter_keys(|kk: Seq<char>| !listed(outv, kk));
            assert forall|kk: Seq<char>| km.contains_key(kk) <==> target.contains_key(kk) by {
                if has_id(kept@, kk) {
                    assert(m.contains_key(kk));
                    if listed(outv, kk) {
                        let i = choose|i: int| #![trigger outv[i]] 0 <= i < outv.len() && outv[i].0 == kk;
                        assert(!has_id(kept@, outv[i].0));
                    }
                }
                if target.contains_key(kk) {
                    assert(m.dom().contains(kk));
                    assert(!has_id(bs@, kk));
                }
            }
            assert forall|kk: Seq<char>| km.contains_key(kk) implies km[kk] == target[kk] by {
                assert(has_id(kept@, kk));
            }
            assert(km =~= target);
            assert forall|kk: Seq<char>| m.contains_key(kk) implies (listed(outv, kk) <==> stale(
                m,
                idle_views(idle@),
                timeout_nanos,
                kk,
            )) by {
                if listed(outv, kk) {
                    let i = choose|i: int| #![trigger outv[i]] 0 <= i < outv.len() && outv[i].0 == kk;
                    assert(stale(m, idle_views(idle@), timeout_nanos, outv[i].0));
                } else {
                    assert(m.dom().contains(kk));
                    assert(has_id(kept@, kk));
                }
            }
        }
        self.buffers = kept;
        proof {
            use_type_invariant(&*self);
            self.lemma_valid();
        }
        out
    }

    /// Enforce the memory budget given the measured usage `used`: within
    /// [`MEMORY_LIMIT_BYTES`] nothing changes but the warning is cleared and
    /// nothing is returned; over it the warning is set and every session is
    /// flushed as by [`flush_all_sessions`](Self::flush_all_sessions).
    pub fn enforce_memory_limit_with(&mut self, used: usize) -> (r: Vec<(String, String)>)
        ensures
            used <= MEMORY_LIMIT_BYTES ==> r@.len() == 0 && final(self)@.sessions == old(self)@.sessions
                && !final(self)@.memory_warning,
            used > MEMORY_LIMIT_BYTES ==> final(self)@.memory_warning && flushed_from(
                old(self)@.sessions,
                pair_views(r@),
            ) && (forall|k: Seq<char>|
                #![trigger old(self)@.sessions[k]]
                old(self)@.sessions.contains_key(k) && !is_blank(old(self)@.sessions[k].buffer) ==> listed(
                    pair_views(r@),
                    k,
                )) && final(self)@.sessions == Map::<Seq<char>, SessionState>::empty(),
            final(self)@.active == old(self)@.active,
            final(self)@.last_active == old(self)@.last_active,
            final(self)@.form == old(self)@.form,
            final(self)@.slow_keystrokes == old(self)@.slow_keystrokes,
            final(self)@.valid(),
    {
        proof {
            use_type_invariant(&*self);
            self.lemma_valid();
        }
        if used <= MEMORY_LIMIT_BYTES {
            self.memory_warning_active = false;
            return Vec::new();
        }
        self.memory_warning_active = true;
        self.flush_all_sessions()
    }

    /// Enforce the cross-session memory budget: the estimated usage is
    /// measured and, when over [`MEMORY_LIMIT_BYTES`], every session is
    /// flushed as raw text and the flushed pairs are returned for delivery
    /// (see [`enforce_memory_limit_with`](Self::enforce_memory_limit_with)).
    /// The usage is the estimate over the capacities the allocator reports
    /// (see [`estimated_memory_bytes`](Self::estimated_memory_bytes)); within
    /// the limit nothing changes but the warning is cleared.
    pub fn enforce_memory_limit(&mut self) -> (r: Vec<(String, String)>)
        ensures
            exists|cs: Seq<BufferCapacities>|
                #[trigger] old(self).capacities_fit(cs) && cs.len() == old(self)@.sessions.len() && (capacity_total(cs)
                    <= MEMORY_LIMIT_BYTES ==> r@.len() == 0 && final(self)@.sessions == old(self)@.sessions
                    && !final(self)@.memory_warning) && (capacity_total(cs) > MEMORY_LIMIT_BYTES
                    ==> memory_flushed(old(self)@, final(self)@, pair_views(r@))),
            final(self)@.active == old(self)@.active,
            final(self)@.last_active == old(self)@.last_active,
            final(self)@.form == old(self)@.form,
            final(self)@.slow_keystrokes == old(self)@.slow_keystrokes,
            final(self)@.valid(),
    {
        let used = self.estimated_memory_bytes();
        self.enforce_memory_limit_with(used)
    }

    /// A human-readable dump of the composition state of every session: the
    /// active method and session count, then one line per session in sorted
    /// id order (or a note that there are none). It reads state only.
    pub fn dump_buffer_state(&self) -> (r: String)
        ensures
            self@.sessions.len() == 0 ==> r@ == dump_header(self@) + "  (no active composition buffers)\n"@,
            self@.sessions.len() > 0 ==> exists|order: Seq<Seq<char>>|
                sorted_ids(order) && order.to_set() == self@.sessions.dom() && r@ == dump_header(self@)
                    + dump_lines(self@.sessions, order),
    {
        proof {
            use_type_invariant(self);
            lemma_map_len(self.buffers@);
        }
        let mut out = String::new();
        out.append("[vietnamese-input] diagnostics: active_method=");
        out.append(method_debug_name(self.active_method));
        out.append(", active_sessions=");
        push_decimal(&mut out, self.buffers.len() as u64);
        out.append("\n");
        let ghost header = out@;
        proof {
            assert(header =~= dump_header(self@));
        }
        if self.buffers.len() == 0 {
            out.append("  (no active composition buffers)\n");
            return out;
        }
        let positions = sorted_positions(&self.buffers);
        let ghost bs = self.buffers@;
        let ghost order = positions@.map_values(|x: usize| bs[x as int].session_id@);
        let mut j: usize = 0;
        while j < positions.len()
            invariant
                bs == self.buffers@,
                buffers_ok(bs),
                j <= positions@.len(),
                positions@.len() == bs.len(),
                forall|i: int| 0 <= i < positions@.len() ==> #[trigger] positions@[i] < bs.len(),
                order == positions@.map_values(|x: usize| bs[x as int].session_id@),
                out@ == header + dump_lines(session_map(bs), order.take(j as int)),
            decreases positions@.len() - j,
        {
            let b = &self.buffers[positions[j]];
            proof {
                lemma_map_at(bs, positions@[j as int] as int);
                assert(buffer_ok(bs[positions@[j as int] as int]));
                assert(order.take(j as int + 1).drop_last() =~= order.take(j as int));
            }
            let ghost before = out@;
            out.append("  session=");
            out.append(b.session_id.as_str());
            out.append(": current=");
            let quoted = debug_string(b.current.as_str());
            out.append(quoted.as_str());
            out.append(", raw_input=");
            let raw = string_of(b.raw_input.as_slice());
            let quoted_raw = debug_string(raw.as_str());
            out.append(quoted_raw.as_str());
            out.append(", history_len=");
            push_decimal(&mut out, b.history.len() as u64);
            out.append(", capacity=");
            push_decimal(&mut out, b.capacity as u64);
            out.append("\n");
            proof {
                let st = session_map(bs)[order[j as int]];
                assert(out@ =~= before + dump_line(order[j as int], st));
            }
            j += 1;
        }
        proof {
            assert(order.take(order.len() as int) =~= order);
            assert(sorted_ids(order));
            assert(order.to_set() =~= self@.sessions.dom()) by {
                assert forall|kk: Seq<char>| order.to_set().contains(kk) implies self@.sessions.dom().contains(kk) by {
                    let i = choose|i: int| 0 <= i < order.len() && order[i] == kk;
                    lemma_map_at(bs, positions@[i] as int);
                }
                assert forall|kk: Seq<char>| self@.sessions.dom().contains(kk) implies order.to_set().contains(kk) by {
                    let x = index_of_id(bs, kk);
                    assert(occurs(positions@, x));
                    let i = choose|i: int| 0 <= i < positions@.len() && #[trigger] positions@[i] == x;
                    assert(order[i] == kk);
                }
            }
        }
        out
    }
}

impl Default for VietnameseComposer {
    fn default() -> (r: Self)
        ensures
            r@.sessions == Map::<Seq<char>, SessionState>::empty(),
            r@.active == InputMethod::Off,
            r@.last_active == InputMethod::Telex,
            r@.form == NormalizationForm::Nfc,
            r@.valid(),
    {
        Self::new()
    }
}

} // verus!
