//! Runs: where one sequence stands inside another, and where the parts of a
//! flattened sequence stand in the whole.

use vstd::prelude::*;
use vstd::seq_lib::lemma_flatten_concat;

verus! {

/// Whether `block` stands in `whole` as one unbroken run that starts at `at`.
pub open spec fn occurs_at<A>(whole: Seq<A>, block: Seq<A>, at: int) -> bool {
    &&& 0 <= at
    &&& at + block.len() <= whole.len()
    &&& whole.subrange(at, at + block.len()) == block
}

/// Whether `block` stands somewhere in `whole` as one unbroken run.
pub open spec fn occurs_in<A>(whole: Seq<A>, block: Seq<A>) -> bool {
    exists|at: int| occurs_at(whole, block, at)
}

/// A run between two others stands in their concatenation, right after the
/// first.
pub proof fn lemma_occurs_between<A>(before: Seq<A>, block: Seq<A>, after: Seq<A>)
    ensures
        occurs_at(before + block + after, block, before.len() as int),
        occurs_in(before + block + after, block),
{
    let whole = before + block + after;
    assert(whole.subrange(before.len() as int, (before.len() + block.len()) as int) =~= block);
    assert(occurs_at(whole, block, before.len() as int));
}

/// A sequence stands at the start of whatever continues it.
pub proof fn lemma_start_occurs<A>(block: Seq<A>, after: Seq<A>)
    ensures
        block.is_prefix_of(block + after),
        occurs_in(block + after, block),
{
    assert((block + after).subrange(0, block.len() as int) =~= block);
    assert(occurs_at(block + after, block, 0));
}

/// A sequence stands at the end of whatever it continues.
pub proof fn lemma_end_occurs<A>(before: Seq<A>, block: Seq<A>)
    ensures
        block.is_suffix_of(before + block),
        occurs_in(before + block, block),
{
    let whole = before + block;
    assert(whole.subrange(before.len() as int, whole.len() as int) =~= block);
    assert(occurs_at(whole, block, before.len() as int));
}

/// What a sequence ends with, it still ends with when something is put
/// before it.
pub proof fn lemma_ending_extends<A>(before: Seq<A>, whole: Seq<A>, block: Seq<A>)
    requires
        block.is_suffix_of(whole),
    ensures
        block.is_suffix_of(before + whole),
{
    let front = whole.take(whole.len() - block.len());
    assert(whole =~= front + block);
    assert(before + whole =~= (before + front) + block);
    lemma_end_occurs(before + front, block);
}

/// A run of a run is a run of the whole.
pub proof fn lemma_occurs_in_transitive<A>(whole: Seq<A>, middle: Seq<A>, block: Seq<A>)
    requires
        occurs_in(whole, middle),
        occurs_in(middle, block),
    ensures
        occurs_in(whole, block),
{
    let a = choose|at: int| occurs_at(whole, middle, at);
    let b = choose|at: int| occurs_at(middle, block, at);
    assert(whole.subrange(a + b, a + b + block.len()) =~= whole.subrange(
        a,
        a + middle.len(),
    ).subrange(b, b + block.len()));
    assert(occurs_at(whole, block, a + b));
}

/// A sequence cut in three at the ends of one of its runs.
pub proof fn lemma_cut_at_run<A>(whole: Seq<A>, block: Seq<A>, at: int)
    requires
        occurs_at(whole, block, at),
    ensures
        whole == whole.take(at) + block + whole.skip(at + block.len()),
{
    assert(whole =~= whole.take(at) + block + whole.skip(at + block.len()));
}

/// The first `n` parts in a row.
pub open spec fn flattened_upto<A>(parts: Seq<Seq<A>>, n: int) -> Seq<A> {
    parts.take(n).flatten()
}

/// No parts in a row are nothing.
pub proof fn lemma_flattened_upto_none<A>(parts: Seq<Seq<A>>)
    ensures
        flattened_upto(parts, 0) == Seq::<A>::empty(),
{
    assert(parts.take(0) =~= Seq::<Seq<A>>::empty());
}

/// One more part in a row adds that part after those before it.
pub proof fn lemma_flattened_upto_next<A>(parts: Seq<Seq<A>>, i: int)
    requires
        0 <= i < parts.len(),
    ensures
        flattened_upto(parts, i + 1) == flattened_upto(parts, i) + parts[i],
{
    assert(parts.take(i + 1) =~= parts.take(i).push(parts[i]));
    parts.take(i).lemma_flatten_push(parts[i]);
}

/// All parts in a row are the flattened whole.
pub proof fn lemma_flattened_upto_all<A>(parts: Seq<Seq<A>>)
    ensures
        flattened_upto(parts, parts.len() as int) == parts.flatten(),
{
    assert(parts.take(parts.len() as int) =~= parts);
}

/// A sequence of parts cut in three around the part at index `i`.
pub proof fn lemma_flatten_around<A>(parts: Seq<Seq<A>>, i: int)
    requires
        0 <= i < parts.len(),
    ensures
        parts.flatten() == parts.take(i).flatten() + parts[i] + parts.skip(i + 1).flatten(),
{
    assert(parts =~= parts.take(i) + seq![parts[i]] + parts.skip(i + 1));
    lemma_flatten_concat(parts.take(i) + seq![parts[i]], parts.skip(i + 1));
    lemma_flatten_concat(parts.take(i), seq![parts[i]]);
    seq![parts[i]].lemma_flatten_one_element();
}

/// Each part stands in the flattened whole as one unbroken run.
pub proof fn lemma_part_occurs<A>(parts: Seq<Seq<A>>, i: int)
    requires
        0 <= i < parts.len(),
    ensures
        occurs_in(parts.flatten(), parts[i]),
{
    lemma_flatten_around(parts, i);
    lemma_occurs_between(parts.take(i).flatten(), parts[i], parts.skip(i + 1).flatten());
}

/// Two neighbouring parts stand in the flattened whole one right after the
/// other.
pub proof fn lemma_neighbours_occur<A>(parts: Seq<Seq<A>>, i: int)
    requires
        0 <= i,
        i + 1 < parts.len(),
    ensures
        occurs_in(parts.flatten(), parts[i] + parts[i + 1]),
{
    lemma_flatten_around(parts, i);
    let rest = parts.skip(i + 1);
    lemma_flatten_around(rest, 0);
    assert(rest.take(0) =~= Seq::<Seq<A>>::empty());
    assert(rest.take(0).flatten() =~= Seq::<A>::empty());
    let before = parts.take(i).flatten();
    let after = rest.skip(1).flatten();
    assert(parts.flatten() =~= before + (parts[i] + parts[i + 1]) + after);
    lemma_occurs_between(before, parts[i] + parts[i + 1], after);
}

/// The flattened whole begins with its first part.
pub proof fn lemma_first_part_leads<A>(parts: Seq<Seq<A>>)
    requires
        parts.len() > 0,
    ensures
        parts.first().is_prefix_of(parts.flatten()),
{
    lemma_flatten_around(parts, 0);
    assert(parts.take(0) =~= Seq::<Seq<A>>::empty());
    assert(parts.take(0).flatten() =~= Seq::<A>::empty());
    assert(parts.flatten() =~= parts.first() + parts.skip(1).flatten());
}

/// The flattened whole ends with its last part.
pub proof fn lemma_last_part_ends<A>(parts: Seq<Seq<A>>)
    requires
        parts.len() > 0,
    ensures
        parts.last().is_suffix_of(parts.flatten()),
{
    let i = parts.len() - 1;
    lemma_flatten_around(parts, i);
    assert(parts.skip(i + 1) =~= Seq::<Seq<A>>::empty());
    assert(parts.skip(i + 1).flatten() =~= Seq::<A>::empty());
    assert(parts.flatten() =~= parts.take(i).flatten() + parts.last());
}

/// Whatever stands in the flattened whole stands in one of its parts.
pub proof fn lemma_flatten_member<A>(parts: Seq<Seq<A>>, x: A)
    requires
        parts.flatten().contains(x),
    ensures
        exists|i: int| 0 <= i < parts.len() && (#[trigger] parts[i]).contains(x),
    decreases parts.len(),
{
    if parts.len() == 0 {
    } else {
        let k = choose|k: int| 0 <= k < parts.flatten().len() && parts.flatten()[k] == x;
        if k < parts.first().len() {
            assert(parts.first()[k] == x);
            assert(parts[0].contains(x));
        } else {
            let rest = parts.drop_first();
            assert(rest.flatten()[k - parts.first().len()] == x);
            lemma_flatten_member(rest, x);
            let i = choose|i: int| 0 <= i < rest.len() && (#[trigger] rest[i]).contains(x);
            assert(parts[i + 1] == rest[i]);
        }
    }
}

} // verus!
