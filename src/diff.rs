use vstd::prelude::*;

verus! {

/// Whether a source key must be copied to a destination holding `destination`:
/// it is not the empty marker key and the destination lacks it.
pub open spec fn needs_copy(destination: Seq<Seq<char>>) -> spec_fn(Seq<char>) -> bool {
    |k: Seq<char>| k.len() > 0 && !destination.contains(k)
}

/// The keys of `source`, in their order, that are non-empty and absent from
/// `destination`.
pub open spec fn missing_keys(source: Seq<Seq<char>>, destination: Seq<Seq<char>>) -> Seq<
    Seq<char>,
> {
    source.filter(needs_copy(destination))
}

/// Whether `keys` holds a key equal to `key`.
pub fn contains_key(keys: &Vec<String>, key: &String) -> (r: bool)
    ensures
        r == keys.deep_view().contains(key@),
{
    let mut i: usize = 0;
    while i < keys.len()
        invariant
            i <= keys.len(),
            forall|j: int| 0 <= j < i ==> keys.deep_view()[j] != key@,
        decreases keys.len() - i,
    {
        if keys[i] == *key {
            assert(keys.deep_view()[i as int] == key@);
            return true;
        }
        i = i + 1;
    }
    proof {
        if keys.deep_view().contains(key@) {
            let j = choose|j: int| 0 <= j < keys.deep_view().len() && keys.deep_view()[j] == key@;
            assert(keys.deep_view()[j] != key@);
        }
    }
    false
}

/// The source keys that the destination lacks, in source order, with the
/// empty marker key left out.
pub fn get_missing_keys(source_keys: &Vec<String>, destination_keys: &Vec<String>) -> (r: Vec<
    String,
>)
    ensures
        r.deep_view() == missing_keys(source_keys.deep_view(), destination_keys.deep_view()),
{
    let ghost src = source_keys.deep_view();
    let ghost dst = destination_keys.deep_view();
    let mut out: Vec<String> = Vec::new();
    let mut i: usize = 0;
    while i < source_keys.len()
        invariant
            i <= source_keys.len(),
            src == source_keys.deep_view(),
            dst == destination_keys.deep_view(),
            out.deep_view() == src.take(i as int).filter(needs_copy(dst)),
        decreases source_keys.len() - i,
    {
        let key: &String = &source_keys[i];
        let keep: bool = key.as_str().unicode_len() > 0 && !contains_key(destination_keys, key);
        proof {
            assert(src.take(i + 1).drop_last() =~= src.take(i as int));
            assert(src.take(i + 1).last() == key@);
            reveal(Seq::filter);
        }
        if keep {
            out.push(key.clone());
            assert(out.deep_view() =~= src.take(i + 1).filter(needs_copy(dst)));
        }
        i = i + 1;
    }
    assert(src.take(i as int) =~= src);
    out
}

/// Diffing yields exactly the non-empty source keys that the destination
/// lacks, kept in source order; it yields nothing when the source is empty or
/// every source key is already in the destination.
pub proof fn lemma_missing_keys_exact(source: Seq<Seq<char>>, destination: Seq<Seq<char>>)
    ensures
        forall|k: Seq<char>|
            #[trigger] missing_keys(source, destination).contains(k) <==> (source.contains(k)
                && !destination.contains(k) && k.len() > 0),
        missing_keys(source, destination) == source.filter(needs_copy(destination)),
        source.len() == 0 ==> missing_keys(source, destination).len() == 0,
        (forall|k: Seq<char>| source.contains(k) ==> destination.contains(k)) ==> missing_keys(
            source,
            destination,
        ).len() == 0,
{
    broadcast use Seq::lemma_filter_contains_rev, Seq::lemma_filter_pred;

    let m = missing_keys(source, destination);
    assert forall|k: Seq<char>| #[trigger]
        m.contains(k) <==> (source.contains(k) && !destination.contains(k) && k.len() > 0) by {
        if m.contains(k) {
            let j = choose|j: int| 0 <= j < m.len() && m[j] == k;
            assert(needs_copy(destination)(m[j]));
        }
        if source.contains(k) && !destination.contains(k) && k.len() > 0 {
            let j = choose|j: int| 0 <= j < source.len() && source[j] == k;
            source.lemma_filter_contains(needs_copy(destination), j);
        }
    }
    if source.len() == 0 {
        reveal(Seq::filter);
    }
    if forall|k: Seq<char>| source.contains(k) ==> destination.contains(k) {
        if m.len() > 0 {
            assert(m.contains(m[0]));
        }
    }
}

/// Diffing keeps source order: the diff of two source runs, one after the
/// other, is the diff of the first followed by the diff of the second, and a
/// single key is kept exactly when it needs copying.
pub proof fn lemma_missing_keys_order(
    first: Seq<Seq<char>>,
    second: Seq<Seq<char>>,
    destination: Seq<Seq<char>>,
    key: Seq<char>,
)
    ensures
        missing_keys(first + second, destination) == missing_keys(first, destination)
            + missing_keys(second, destination),
        missing_keys(seq![key], destination) == (if key.len() > 0 && !destination.contains(key) {
            seq![key]
        } else {
            Seq::<Seq<char>>::empty()
        }),
{
    Seq::filter_distributes_over_add(first, second, needs_copy(destination));
    reveal(Seq::filter);
    let one = seq![key];
    assert(one.drop_last() =~= Seq::<Seq<char>>::empty());
    assert(one.drop_last().filter(needs_copy(destination)) =~= Seq::<Seq<char>>::empty());
    if key.len() > 0 && !destination.contains(key) {
        assert(Seq::<Seq<char>>::empty().push(key) =~= seq![key]);
    }
}

/// After one sync the destination holds its old keys and every non-empty
/// source key, and a second diff against it finds nothing to copy.
pub proof fn lemma_sync_idempotent(source: Seq<Seq<char>>, destination: Seq<Seq<char>>)
    ensures
        ({
            let after = destination + missing_keys(source, destination);
            &&& forall|k: Seq<char>| #[trigger]
                after.contains(k) <==> (destination.contains(k) || (source.contains(k) && k.len()
                    > 0))
            &&& missing_keys(source, after).len() == 0
        }),
{
    lemma_missing_keys_exact(source, destination);
    let m = missing_keys(source, destination);
    let after = destination + m;
    assert forall|k: Seq<char>| #[trigger]
        after.contains(k) <==> (destination.contains(k) || m.contains(k)) by {
        if after.contains(k) {
            let j = choose|j: int| 0 <= j < after.len() && after[j] == k;
            if j >= destination.len() {
                assert(m[j - destination.len()] == k);
            }
        }
        if destination.contains(k) {
            let j = choose|j: int| 0 <= j < destination.len() && destination[j] == k;
            assert(after[j] == k);
        }
        if m.contains(k) {
            let j = choose|j: int| 0 <= j < m.len() && m[j] == k;
            assert(after[j + destination.len()] == k);
        }
    }
    lemma_missing_keys_exact(source, after);
    let m2 = missing_keys(source, after);
    if m2.len() > 0 {
        assert(m2.contains(m2[0]));
    }
}

} // verus!
