//! How message bodies are grouped into requests.

use vstd::prelude::*;

use crate::mime::MimePlan;

verus! {

/// Background selective reads are grouped into one multi-UID FETCH whenever
/// their MIME section layouts match. A large UID batch removes the per-message
/// network round trip and permits hundreds of small messages per second on a
/// fast server.
pub const BODY_FETCH_CHUNK: usize = 200;

/// Bound one selective response independently of message count. Two workers at
/// this ceiling use modest memory while still allowing high-throughput bursts.
pub const MAX_SELECTIVE_BATCH_BYTES: u64 = 8_388_608;

pub const MAX_MICROSOFT_BATCH_BYTES: u64 = 4_194_304;

/// A message whose readable sections are to be fetched.
#[derive(Debug, Clone)]
pub struct PlannedBodyFetch {
    pub message_id: i64,
    pub uid: u32,
    pub plan: MimePlan,
}

/// The sizes of the text sections of a plan, added up.
pub open spec fn text_bytes(plan: MimePlan, n: int) -> int
    decreases n,
{
    if n <= 0 {
        0
    } else {
        text_bytes(plan, n - 1) + plan.text_sections@[n - 1].size
    }
}

/// A number held down to what 64 bits can hold.
pub open spec fn capped(n: int) -> int {
    if n <= u64::MAX {
        n
    } else {
        u64::MAX as int
    }
}

/// What a message counts for in a batch: its text bytes, and at least one.
pub open spec fn weight(item: PlannedBodyFetch) -> int {
    let sum = capped(text_bytes(item.plan, item.plan.text_sections@.len() as int));
    if sum < 1 {
        1
    } else {
        sum
    }
}

/// What a batch counts for.
pub open spec fn total_weight(items: Seq<PlannedBodyFetch>) -> int
    decreases items.len(),
{
    if items.len() == 0 {
        0
    } else {
        total_weight(items.drop_last()) + weight(items.last())
    }
}

proof fn lemma_text_bytes(plan: MimePlan, n: int)
    requires
        0 <= n <= plan.text_sections@.len(),
    ensures
        text_bytes(plan, n) >= 0,
    decreases n,
{
    if n > 0 {
        lemma_text_bytes(plan, n - 1);
    }
}

proof fn lemma_total_weight(items: Seq<PlannedBodyFetch>)
    ensures
        total_weight(items) >= items.len(),
    decreases items.len(),
{
    if items.len() > 0 {
        lemma_total_weight(items.drop_last());
        lemma_text_bytes(items.last().plan, items.last().plan.text_sections@.len() as int);
    }
}

pub fn planned_text_bytes(item: &PlannedBodyFetch) -> (r: u64)
    ensures
        r == weight(*item),
        r >= 1,
{
    let mut sum: u64 = 0;
    let mut i: usize = 0;
    while i < item.plan.text_sections.len()
        invariant
            i <= item.plan.text_sections@.len(),
            sum == capped(text_bytes(item.plan, i as int)),
        decreases item.plan.text_sections@.len() - i,
    {
        proof {
            lemma_text_bytes(item.plan, i as int);
        }
        sum = sum.saturating_add(item.plan.text_sections[i].size as u64);
        i = i + 1;
    }
    if sum < 1 {
        1
    } else {
        sum
    }
}

/// The items of a run of batches, one after the other.
pub open spec fn joined<T>(batches: Seq<Seq<T>>) -> Seq<T>
    decreases batches.len(),
{
    if batches.len() == 0 {
        Seq::empty()
    } else {
        joined(batches.drop_last()) + batches.last()
    }
}

/// A batch that can be asked for: not empty, not too many messages, and not
/// too many bytes unless it is a single message.
pub open spec fn batch_fits(batch: Seq<PlannedBodyFetch>, max_bytes: u64) -> bool {
    &&& 0 < batch.len() <= BODY_FETCH_CHUNK
    &&& batch.len() > 1 ==> capped(total_weight(batch)) <= max_bytes
}

/// The message could not have joined the batch before it.
pub open spec fn opens_new_batch(
    batch: Seq<PlannedBodyFetch>,
    next: PlannedBodyFetch,
    max_bytes: u64,
) -> bool {
    batch.len() >= BODY_FETCH_CHUNK || capped(total_weight(batch) + weight(next)) > max_bytes
}

/// The messages in their order, packed into batches that fit, each as full as
/// the order allows.
pub open spec fn is_packing(
    items: Seq<PlannedBodyFetch>,
    max_bytes: u64,
    batches: Seq<Seq<PlannedBodyFetch>>,
) -> bool {
    &&& joined(batches) == items
    &&& forall|i: int| 0 <= i < batches.len() ==> batch_fits(#[trigger] batches[i], max_bytes)
    &&& forall|i: int|
        0 <= i < batches.len() - 1 ==> opens_new_batch(
            #[trigger] batches[i],
            batches[i + 1][0],
            max_bytes,
        )
}

/// The batches by what they hold.
pub open spec fn batch_views(v: Seq<Vec<PlannedBodyFetch>>) -> Seq<Seq<PlannedBodyFetch>> {
    v.map_values(|b: Vec<PlannedBodyFetch>| b@)
}

fn reversed(items: Vec<PlannedBodyFetch>) -> (r: Vec<PlannedBodyFetch>)
    ensures
        r@ == items@.reverse(),
{
    let mut rest: Vec<PlannedBodyFetch> = items;
    let mut out: Vec<PlannedBodyFetch> = Vec::new();
    proof {
        assert(rest@.take(rest@.len() as int) =~= rest@);
    }
    while rest.len() > 0
        invariant
            rest@ == items@.take(rest@.len() as int),
            rest@.len() <= items@.len(),
            out@ == items@.skip(rest@.len() as int).reverse(),
        decreases rest@.len(),
    {
        let ghost n = rest@.len() as int;
        if let Some(item) = rest.pop() {
            out.push(item);
            proof {
                assert(rest@ =~= items@.take(n - 1));
                assert(items@.skip(n - 1).reverse() =~= items@.skip(n).reverse().push(
                    items@[n - 1],
                ));
            }
        }
    }
    proof {
        assert(items@.skip(0) =~= items@);
    }
    out
}

/// Split one shared-layout group by both UID count and BODYSTRUCTURE's encoded
/// byte estimate. The first oversized message still gets its own batch.
pub fn selective_fetch_batches(items: Vec<PlannedBodyFetch>, max_bytes: u64) -> (r: Vec<
    Vec<PlannedBodyFetch>,
>)
    ensures
        is_packing(items@, max_bytes, batch_views(r@)),
{
    let ghost all = items@;
    let mut stack: Vec<PlannedBodyFetch> = reversed(items);
    let mut batches: Vec<Vec<PlannedBodyFetch>> = Vec::new();
    let mut batch: Vec<PlannedBodyFetch> = Vec::new();
    let mut bytes: u64 = 0;
    proof {
        assert(all.reverse().reverse() =~= all);
        assert(joined(batch_views(batches@)) + batch@ + stack@.reverse() =~= all);
    }
    while stack.len() > 0
        invariant
            joined(batch_views(batches@)) + batch@ + stack@.reverse() == all,
            bytes == capped(total_weight(batch@)),
            batch@.len() > 0 ==> batch_fits(batch@, max_bytes),
            forall|i: int|
                0 <= i < batches@.len() ==> batch_fits(#[trigger] batch_views(batches@)[i], max_bytes),
            forall|i: int|
                0 <= i < batches@.len() - 1 ==> opens_new_batch(
                    #[trigger] batch_views(batches@)[i],
                    batch_views(batches@)[i + 1][0],
                    max_bytes,
                ),
            batches@.len() > 0 ==> batch@.len() > 0 && opens_new_batch(
                batch_views(batches@).last(),
                batch@[0],
                max_bytes,
            ),
        decreases stack@.len(),
    {
        let ghost before_stack = stack@;
        let ghost before_batches = batch_views(batches@);
        let ghost before_batch = batch@;
        if let Some(item) = stack.pop() {
            let item_bytes: u64 = planned_text_bytes(&item);
            proof {
                lemma_total_weight(before_batch);
                assert(before_stack.reverse() =~= seq![item] + stack@.reverse());
            }
            if batch.len() > 0 && (batch.len() >= BODY_FETCH_CHUNK || bytes.saturating_add(
                item_bytes,
            ) > max_bytes) {
                let mut full: Vec<PlannedBodyFetch> = Vec::new();
                std::mem::swap(&mut full, &mut batch);
                batches.push(full);
                bytes = 0;
                proof {
                    let now = batch_views(batches@);
                    assert(now =~= before_batches.push(before_batch));
                    assert(now.drop_last() =~= before_batches);
                    assert forall|i: int| 0 <= i < now.len() implies batch_fits(
                        #[trigger] now[i],
                        max_bytes,
                    ) by {
                        if i < before_batches.len() {
                            assert(now[i] == before_batches[i]);
                        }
                    }
                    assert forall|i: int| 0 <= i < now.len() - 1 implies opens_new_batch(
                        #[trigger] now[i],
                        now[i + 1][0],
                        max_bytes,
                    ) by {
                        assert(now[i] == before_batches[i]);
                        if i + 1 < before_batches.len() {
                            assert(now[i + 1] == before_batches[i + 1]);
                        }
                    }
                }
            }
            let ghost open = batch@;
            bytes = bytes.saturating_add(item_bytes);
            batch.push(item);
            proof {
                assert(batch@.drop_last() =~= open);
                lemma_total_weight(open);
                lemma_text_bytes(item.plan, item.plan.text_sections@.len() as int);
                assert(total_weight(batch@) == total_weight(open) + weight(item));
                assert(joined(batch_views(batches@)) + batch@ + stack@.reverse() =~= all);
            }
        }
    }
    if batch.len() > 0 {
        let ghost before_batches = batch_views(batches@);
        let ghost last = batch@;
        batches.push(batch);
        proof {
            let now = batch_views(batches@);
            assert(now =~= before_batches.push(last));
            assert(now.drop_last() =~= before_batches);
            assert forall|i: int| 0 <= i < now.len() implies batch_fits(
                #[trigger] now[i],
                max_bytes,
            ) by {
                if i < before_batches.len() {
                    assert(now[i] == before_batches[i]);
                }
            }
            assert forall|i: int| 0 <= i < now.len() - 1 implies opens_new_batch(
                #[trigger] now[i],
                now[i + 1][0],
                max_bytes,
            ) by {
                assert(now[i] == before_batches[i]);
                if i + 1 < before_batches.len() {
                    assert(now[i + 1] == before_batches[i + 1]);
                }
            }
            assert(joined(now) =~= all);
        }
    } else {
        proof {
            assert(joined(batch_views(batches@)) =~= all);
        }
    }
    batches
}

/// A batch is closed only where the next message does not fit: two hundred messages
/// are in it, or the next one would bring it over the limit. More than one message
/// never goes over the limit, and up to the limit is allowed.
pub proof fn batches_are_as_full_as_they_can_be(
    items: Seq<PlannedBodyFetch>,
    max_bytes: u64,
    batches: Seq<Seq<PlannedBodyFetch>>,
    i: int,
)
    requires
        is_packing(items, max_bytes, batches),
        max_bytes < u64::MAX,
        0 <= i < batches.len(),
    ensures
        i < batches.len() - 1 ==> batches[i].len() == 200 || total_weight(batches[i]) + weight(
            batches[i + 1][0],
        ) > max_bytes,
        batches[i].len() > 1 ==> total_weight(batches[i]) <= max_bytes,
        forall|k: int|
            0 <= k < batches[i].len() ==> weight(#[trigger] batches[i][k]) >= 1 && (text_bytes(
                batches[i][k].plan,
                batches[i][k].plan.text_sections@.len() as int,
            ) <= max_bytes ==> weight(batches[i][k]) <= text_bytes(
                batches[i][k].plan,
                batches[i][k].plan.text_sections@.len() as int,
            ) + 1 && weight(batches[i][k]) >= text_bytes(
                batches[i][k].plan,
                batches[i][k].plan.text_sections@.len() as int,
            )),
{
    assert(batch_fits(batches[i], max_bytes));
    assert forall|k: int| 0 <= k < batches[i].len() implies weight(#[trigger] batches[i][k]) >= 1
        && (text_bytes(
        batches[i][k].plan,
        batches[i][k].plan.text_sections@.len() as int,
    ) <= max_bytes ==> weight(batches[i][k]) <= text_bytes(
        batches[i][k].plan,
        batches[i][k].plan.text_sections@.len() as int,
    ) + 1 && weight(batches[i][k]) >= text_bytes(
        batches[i][k].plan,
        batches[i][k].plan.text_sections@.len() as int,
    )) by {
        lemma_text_bytes(
            batches[i][k].plan,
            batches[i][k].plan.text_sections@.len() as int,
        );
    }
    if i < batches.len() - 1 {
        assert(opens_new_batch(batches[i], batches[i + 1][0], max_bytes));
    }
}

/// Packing loses no message and repeats none: each message stands in one of the
/// batches, in its order, and no batch has more than two hundred messages. Two or
/// more messages share a batch only where their text sections together have no
/// more bytes than a response may have.
pub proof fn every_message_is_packed(
    items: Seq<PlannedBodyFetch>,
    max_bytes: u64,
    batches: Seq<Seq<PlannedBodyFetch>>,
    i: int,
)
    requires
        is_packing(items, max_bytes, batches),
        0 <= i < batches.len(),
    ensures
        0 < batches[i].len() <= 200,
        batches[i].len() > 1 && max_bytes < u64::MAX ==> forall|k: int, l: int|
            #![trigger batches[i][k], batches[i][l]]
            0 <= k < l < batches[i].len() ==> text_bytes(
                batches[i][k].plan,
                batches[i][k].plan.text_sections@.len() as int,
            ) + text_bytes(
                batches[i][l].plan,
                batches[i][l].plan.text_sections@.len() as int,
            ) <= max_bytes,
        forall|p: PlannedBodyFetch| #[trigger] batches[i].contains(p) ==> items.contains(p),
        forall|p: PlannedBodyFetch| #[trigger]
            items.contains(p) ==> exists|b: int|
                0 <= b < batches.len() && (#[trigger] batches[b]).contains(p),
{
    let batch = batches[i];
    assert(batch_fits(batch, max_bytes));
    if batch.len() > 1 && max_bytes < u64::MAX {
        assert forall|k: int, l: int|
            #![trigger batch[k], batch[l]]
            0 <= k < l < batch.len() implies text_bytes(
            batch[k].plan,
            batch[k].plan.text_sections@.len() as int,
        ) + text_bytes(batch[l].plan, batch[l].plan.text_sections@.len() as int) <= max_bytes by {
            lemma_two_weights(batch, k, l);
        }
    }
    lemma_joined_holds(batches);
}

/// Two of the messages weigh no more than all of them.
proof fn lemma_two_weights(items: Seq<PlannedBodyFetch>, k: int, l: int)
    requires
        0 <= k < l < items.len(),
    ensures
        weight(items[k]) + weight(items[l]) <= total_weight(items),
    decreases items.len(),
{
    let front = items.drop_last();
    if l < front.len() {
        lemma_two_weights(front, k, l);
    } else {
        lemma_one_weight(front, k);
    }
}

proof fn lemma_one_weight(items: Seq<PlannedBodyFetch>, k: int)
    requires
        0 <= k < items.len(),
    ensures
        weight(items[k]) <= total_weight(items),
    decreases items.len(),
{
    let front = items.drop_last();
    lemma_total_weight(front);
    if k < front.len() {
        lemma_one_weight(front, k);
    }
}

/// What is in a batch is in the run of batches, and the other way round.
proof fn lemma_joined_holds<T>(batches: Seq<Seq<T>>)
    ensures
        forall|x: T| #[trigger]
            joined(batches).contains(x) <==> exists|b: int|
                0 <= b < batches.len() && (#[trigger] batches[b]).contains(x),
    decreases batches.len(),
{
    if batches.len() > 0 {
        let front = batches.drop_last();
        let n = batches.len() - 1;
        lemma_joined_holds(front);
        let rest = joined(front);
        let all = joined(batches);
        assert(forall|b: int| 0 <= b < n ==> front[b] == #[trigger] batches[b]);
        assert forall|x: T| #[trigger] all.contains(x) <==> exists|b: int|
            0 <= b < batches.len() && (#[trigger] batches[b]).contains(x) by {
            if all.contains(x) {
                let k = all.index_of(x);
                if k < rest.len() {
                    assert(rest[k] == x);
                    assert(rest.contains(x));
                    let b = choose|b: int| 0 <= b < front.len() && (#[trigger] front[b]).contains(x);
                    assert(batches[b].contains(x));
                } else {
                    assert(batches[n][k - rest.len()] == x);
                    assert(batches[n].contains(x));
                }
            }
            if exists|b: int| 0 <= b < batches.len() && (#[trigger] batches[b]).contains(x) {
                let b = choose|b: int|
                    0 <= b < batches.len() && (#[trigger] batches[b]).contains(x);
                if b < n {
                    assert(front[b].contains(x));
                    assert(rest.contains(x));
                    let k = rest.index_of(x);
                    assert(all[k] == x);
                } else {
                    let k = batches[n].index_of(x);
                    assert(all[rest.len() + k] == x);
                }
            }
        }
    }
}

/// There is one way only to pack messages in a given order.
pub proof fn packing_is_unique(
    items: Seq<PlannedBodyFetch>,
    max_bytes: u64,
    a: Seq<Seq<PlannedBodyFetch>>,
    b: Seq<Seq<PlannedBodyFetch>>,
)
    requires
        is_packing(items, max_bytes, a),
        is_packing(items, max_bytes, b),
    ensures
        a == b,
    decreases items.len(),
{
    lemma_first_batch(items, max_bytes, a);
    lemma_first_batch(items, max_bytes, b);
    if items.len() > 0 {
        let la = a[0].len() as int;
        let lb = b[0].len() as int;
        lemma_not_shorter(items, max_bytes, a, b);
        lemma_not_shorter(items, max_bytes, b, a);
        assert(la == lb);
        packing_is_unique(items.skip(la), max_bytes, a.drop_first(), b.drop_first());
        assert(a =~= seq![a[0]] + a.drop_first());
        assert(b =~= seq![b[0]] + b.drop_first());
    } else {
        assert(a =~= b);
    }
}

/// The first batch of a packing is a prefix of the messages, and the others
/// pack what is left.
proof fn lemma_first_batch(
    items: Seq<PlannedBodyFetch>,
    max_bytes: u64,
    a: Seq<Seq<PlannedBodyFetch>>,
)
    requires
        is_packing(items, max_bytes, a),
    ensures
        items.len() == 0 <==> a.len() == 0,
        a.len() > 0 ==> {
            &&& 0 < a[0].len() <= items.len()
            &&& a[0] == items.take(a[0].len() as int)
            &&& is_packing(items.skip(a[0].len() as int), max_bytes, a.drop_first())
            &&& a.len() > 1 ==> a[0].len() < items.len() && a[1][0] == items[a[0].len() as int]
        },
{
    if a.len() > 0 {
        lemma_joined_first(a);
        let rest = a.drop_first();
        let n = a[0].len() as int;
        assert(items.take(n) =~= a[0]);
        assert(items.skip(n) =~= joined(rest));
        assert forall|i: int| 0 <= i < rest.len() implies batch_fits(
            #[trigger] rest[i],
            max_bytes,
        ) by {
            assert(rest[i] == a[i + 1]);
        }
        assert forall|i: int| 0 <= i < rest.len() - 1 implies opens_new_batch(
            #[trigger] rest[i],
            rest[i + 1][0],
            max_bytes,
        ) by {
            assert(rest[i] == a[i + 1]);
            assert(rest[i + 1] == a[i + 2]);
        }
        if a.len() > 1 {
            lemma_joined_first(rest);
            assert(rest[0] == a[1]);
            assert(batch_fits(a[1], max_bytes));
            assert(joined(rest)[0] == a[1][0]);
        }
        assert(batch_fits(a[0], max_bytes));
    }
}

pub proof fn lemma_joined_first<T>(a: Seq<Seq<T>>)
    requires
        a.len() > 0,
    ensures
        joined(a) == a[0] + joined(a.drop_first()),
    decreases a.len(),
{
    if a.len() == 1 {
        assert(a.drop_last() =~= Seq::<Seq<T>>::empty());
        assert(a.drop_first() =~= Seq::<Seq<T>>::empty());
        assert(joined(a) =~= a[0] + joined(a.drop_first()));
    } else {
        lemma_joined_first(a.drop_last());
        assert(a.drop_last().drop_first() =~= a.drop_first().drop_last());
        assert(joined(a) =~= a[0] + joined(a.drop_first()));
    }
}

/// Of two packings neither has the shorter first batch.
proof fn lemma_not_shorter(
    items: Seq<PlannedBodyFetch>,
    max_bytes: u64,
    a: Seq<Seq<PlannedBodyFetch>>,
    b: Seq<Seq<PlannedBodyFetch>>,
)
    requires
        items.len() > 0,
        is_packing(items, max_bytes, a),
        is_packing(items, max_bytes, b),
        a.len() > 0,
        b.len() > 0,
    ensures
        a[0].len() >= b[0].len(),
{
    lemma_first_batch(items, max_bytes, a);
    lemma_first_batch(items, max_bytes, b);
    let n = a[0].len() as int;
    if n < b[0].len() {
        if a.len() == 1 {
            lemma_joined_first(a);
            assert(a.drop_first() =~= Seq::<Seq<PlannedBodyFetch>>::empty());
            assert(joined(a) =~= a[0]);
        }
        assert(opens_new_batch(a[0], a[1][0], max_bytes));
        assert(batch_fits(b[0], max_bytes));
        assert(b[0].take(n + 1).drop_last() =~= a[0]);
        assert(b[0].take(n + 1).last() == items[n]);
        lemma_weight_grows(b[0], n + 1);
    }
}

proof fn lemma_weight_grows(items: Seq<PlannedBodyFetch>, n: int)
    requires
        0 <= n <= items.len(),
    ensures
        total_weight(items.take(n)) <= total_weight(items),
    decreases items.len(),
{
    if n == items.len() {
        assert(items.take(n) =~= items);
    } else {
        lemma_weight_grows(items.drop_last(), n);
        assert(items.drop_last().take(n) =~= items.take(n));
        lemma_text_bytes(items.last().plan, items.last().plan.text_sections@.len() as int);
    }
}

// ---------------------------------------------------------------------------
// Chunks
// ---------------------------------------------------------------------------

/// A list in pieces of `size`, in order; only the last may be shorter.
pub open spec fn is_chunked<T>(items: Seq<T>, size: int, chunks: Seq<Seq<T>>) -> bool {
    &&& joined(chunks) == items
    &&& forall|i: int| 0 <= i < chunks.len() ==> 0 < (#[trigger] chunks[i]).len() <= size
    &&& forall|i: int| 0 <= i < chunks.len() - 1 ==> (#[trigger] chunks[i]).len() == size
}

/// The pieces themselves.
pub open spec fn pieces<T>(items: Seq<T>, size: int) -> Seq<Seq<T>>
    decreases items.len(),
{
    if items.len() == 0 || size <= 0 {
        Seq::empty()
    } else if items.len() <= size {
        seq![items]
    } else {
        seq![items.take(size)] + pieces(items.skip(size), size)
    }
}

/// There is one way only to cut a list into pieces.
pub proof fn pieces_are_unique<T>(items: Seq<T>, size: int, chunks: Seq<Seq<T>>)
    requires
        size > 0,
        is_chunked(items, size, chunks),
    ensures
        chunks == pieces(items, size),
    decreases items.len(),
{
    if chunks.len() == 0 {
        assert(chunks =~= pieces(items, size));
    } else {
        lemma_joined_first(chunks);
        let rest = chunks.drop_first();
        assert(0 < chunks[0].len() <= size);
        assert forall|i: int| 0 <= i < rest.len() implies 0 < (#[trigger] rest[i]).len()
            <= size by {
            assert(rest[i] == chunks[i + 1]);
        }
        assert forall|i: int| 0 <= i < rest.len() - 1 implies (#[trigger] rest[i]).len()
            == size by {
            assert(rest[i] == chunks[i + 1]);
        }
        if rest.len() == 0 {
            assert(joined(rest) =~= Seq::<T>::empty());
            assert(items =~= chunks[0]);
            assert(chunks =~= seq![items]);
        } else {
            assert(chunks[0].len() == size);
            lemma_joined_first(rest);
            assert(rest[0].len() > 0);
            assert(items.take(size) =~= chunks[0]);
            assert(items.skip(size) =~= joined(rest));
            pieces_are_unique(items.skip(size), size, rest);
            assert(chunks =~= seq![chunks[0]] + rest);
        }
    }
}

pub open spec fn chunk_views<T>(v: Seq<Vec<T>>) -> Seq<Seq<T>> {
    v.map_values(|c: Vec<T>| c@)
}

/// `items.chunks(size)`.
pub fn chunked<T: Copy>(items: &Vec<T>, size: usize) -> (r: Vec<Vec<T>>)
    requires
        size > 0,
    ensures
        is_chunked(items@, size as int, chunk_views(r@)),
{
    let mut chunks: Vec<Vec<T>> = Vec::new();
    let mut from: usize = 0;
    proof {
        assert(joined(chunk_views(chunks@)) =~= items@.take(0));
    }
    while from < items.len()
        invariant
            size > 0,
            from <= items@.len(),
            joined(chunk_views(chunks@)) == items@.take(from as int),
            forall|i: int|
                0 <= i < chunks@.len() ==> 0 < (#[trigger] chunk_views(chunks@)[i]).len() <= size,
            forall|i: int|
                0 <= i < chunks@.len() ==> (#[trigger] chunk_views(chunks@)[i]).len() == size
                    || from == items@.len() && i == chunks@.len() - 1,
        decreases items@.len() - from,
    {
        let end: usize = if items.len() - from > size {
            from + size
        } else {
            items.len()
        };
        let mut chunk: Vec<T> = Vec::new();
        let mut i: usize = from;
        while i < end
            invariant
                from <= i <= end <= items@.len(),
                chunk@ == items@.subrange(from as int, i as int),
            decreases end - i,
        {
            chunk.push(items[i]);
            i = i + 1;
            proof {
                assert(items@.subrange(from as int, i as int) =~= items@.subrange(
                    from as int,
                    i - 1,
                ).push(items@[i - 1]));
            }
        }
        let ghost before = chunk_views(chunks@);
        let ghost piece = chunk@;
        chunks.push(chunk);
        proof {
            let now = chunk_views(chunks@);
            assert(now =~= before.push(piece));
            assert(now.drop_last() =~= before);
            assert(joined(now) =~= items@.take(end as int));
            assert forall|k: int| 0 <= k < now.len() implies 0 < (#[trigger] now[k]).len()
                <= size by {
                if k < before.len() {
                    assert(now[k] == before[k]);
                }
            }
            assert forall|k: int| 0 <= k < now.len() implies (#[trigger] now[k]).len() == size
                || end == items@.len() && k == now.len() - 1 by {
                if k < before.len() {
                    assert(now[k] == before[k]);
                }
            }
        }
        from = end;
    }
    proof {
        assert(items@.take(items@.len() as int) =~= items@);
    }
    chunks
}

/// A timeout or server-side response-size limit must not let one large batch
/// block every sibling forever: the batch is halved. Both halves are shorter
/// than the batch, neither is empty, and together they are the batch, so
/// halving ends at single messages.
pub fn bisect<T>(items: &mut Vec<T>) -> (right: Vec<T>)
    requires
        old(items)@.len() > 1,
    ensures
        final(items)@ + right@ == old(items)@,
        final(items)@.len() == old(items)@.len() / 2,
        0 < final(items)@.len() < old(items)@.len(),
        0 < right@.len() < old(items)@.len(),
{
    let half: usize = items.len() / 2;
    let ghost before = items@;
    let right: Vec<T> = items.split_off(half);
    proof {
        assert(items@ + right@ =~= before);
    }
    right
}

} // verus!
