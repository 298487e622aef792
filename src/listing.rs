use vstd::prelude::*;
use crate::address::{Bucket, path_view};
use crate::key_path::part_of;

verus! {

/// A store key made relative to a bucket's sub-path: the sub-path's length cut
/// from the front, then one separating slash if one leads what is left.
pub open spec fn relative_key(full: Seq<char>, prefix: Seq<char>) -> Seq<char> {
    let rest = if full.len() >= prefix.len() {
        full.subrange(prefix.len() as int, full.len() as int)
    } else {
        Seq::empty()
    };
    if rest.len() > 0 && rest[0] == '/' {
        rest.drop_first()
    } else {
        rest
    }
}

/// Each store key of `keys` made relative to `prefix`.
pub open spec fn relative_keys(keys: Seq<Seq<char>>, prefix: Seq<char>) -> Seq<Seq<char>> {
    keys.map_values(|k: Seq<char>| relative_key(k, prefix))
}

/// Cuts a bucket's sub-path and one separating slash from the front of a store key.
pub fn relative_key_of(full: &str, prefix: &Option<String>) -> (r: String)
    ensures
        r@ == relative_key(full@, part_of(*prefix)),
{
    let plen: usize = match prefix {
        Some(p) => p.as_str().unicode_len(),
        None => 0,
    };
    let len: usize = full.unicode_len();
    if len < plen {
        return String::new();
    }
    let start: usize = if len > plen && full.get_char(plen) == '/' {
        plen + 1
    } else {
        plen
    };
    let r: String = String::from_str(full.substring_char(start, len));
    proof {
        let rest = full@.subrange(plen as int, len as int);
        if len > plen && full@[plen as int] == '/' {
            assert(rest.drop_first() =~= r@);
        } else {
            assert(rest =~= r@);
        }
    }
    r
}

/// How the cursor of the next page request is chosen.
#[derive(Debug, Clone, Copy, PartialEq, Eq, Structural)]
pub enum CursorMode {
    /// Resume after the store key of the last item listed.
    FullKey,
    /// Resume after the last relative key listed, as the sub-path-stripped
    /// key would be read by the store.
    RelativeKey,
}

/// The abstract state of a listing.
pub struct ListingState {
    pub prefix: Seq<char>,
    pub mode: CursorMode,
    pub items: Seq<Seq<char>>,
    pub cursor: Option<Seq<char>>,
    pub done: bool,
}

/// The state of a listing before its first page.
pub open spec fn initial_listing(prefix: Seq<char>, mode: CursorMode) -> ListingState {
    ListingState { prefix, mode, items: Seq::empty(), cursor: None, done: false }
}

/// The state of a listing after one page of store keys: their relative keys
/// are appended, the cursor moves to the last item, and the listing is done
/// when the cursor did not move.
pub open spec fn after_page(s: ListingState, page: Seq<Seq<char>>) -> ListingState {
    let items = s.items + relative_keys(page, s.prefix);
    let cursor = if page.len() == 0 {
        s.cursor
    } else {
        match s.mode {
            CursorMode::FullKey => Some(page.last()),
            CursorMode::RelativeKey => Some(items.last()),
        }
    };
    ListingState { prefix: s.prefix, mode: s.mode, items, cursor, done: cursor == s.cursor }
}

/// Whether two optional keys are equal.
fn same_key(a: &Option<String>, b: &Option<String>) -> (r: bool)
    ensures
        r == (path_view(*a) == path_view(*b)),
{
    match (a, b) {
        (Some(x), Some(y)) => *x == *y,
        (None, None) => true,
        _ => false,
    }
}

/// Walks a bucket's keys page by page: the caller asks the store for the page
/// after `start_after`, hands it to `record_page`, and repeats until `is_done`.
pub struct KeyListing {
    prefix: Option<String>,
    mode: CursorMode,
    items: Vec<String>,
    cursor: Option<String>,
    done: bool,
}

impl KeyListing {
    pub closed spec fn view(&self) -> ListingState {
        ListingState {
            prefix: part_of(self.prefix),
            mode: self.mode,
            items: self.items.deep_view(),
            cursor: path_view(self.cursor),
            done: self.done,
        }
    }

    /// A listing of `bucket` that resumes each page after the store key of the
    /// last item.
    pub fn new(bucket: &Bucket) -> (r: KeyListing)
        ensures
            r.view() == initial_listing(part_of(bucket.path), CursorMode::FullKey),
    {
        KeyListing::with_mode(bucket, CursorMode::FullKey)
    }

    /// A listing of `bucket` with the given choice of cursor.
    pub fn with_mode(bucket: &Bucket, mode: CursorMode) -> (r: KeyListing)
        ensures
            r.view() == initial_listing(part_of(bucket.path), mode),
    {
        let r = KeyListing {
            prefix: bucket.path.clone(),
            mode,
            items: Vec::new(),
            cursor: None,
            done: false,
        };
        assert(r.items.deep_view() =~= Seq::<Seq<char>>::empty());
        r
    }

    /// Whether the listing has seen every key.
    pub fn is_done(&self) -> (r: bool)
        ensures
            r == self.view().done,
    {
        self.done
    }

    /// The key that the next page must start after; `None` for the first page.
    pub fn start_after(&self) -> (r: Option<String>)
        ensures
            path_view(r) == self.view().cursor,
    {
        match &self.cursor {
            Some(c) => Some(c.clone()),
            None => None,
        }
    }

    /// The relative keys listed so far.
    pub fn keys(&self) -> (r: &Vec<String>)
        ensures
            r.deep_view() == self.view().items,
    {
        &self.items
    }

    /// Takes in one page of store keys, in listing order.
    pub fn record_page(&mut self, page: Vec<String>)
        requires
            !old(self).view().done,
        ensures
            final(self).view() == after_page(old(self).view(), page.deep_view()),
    {
        let ghost before = old(self).view();
        let ghost pv = page.deep_view();
        let mut i: usize = 0;
        while i < page.len()
            invariant
                i <= page.len(),
                pv == page.deep_view(),
                before == old(self).view(),
                self.prefix == old(self).prefix,
                self.mode == old(self).mode,
                self.cursor == old(self).cursor,
                self.done == old(self).done,
                self.items.deep_view() == before.items + relative_keys(
                    pv.take(i as int),
                    before.prefix,
                ),
            decreases page.len() - i,
        {
            let full: &str = page[i].as_str();
            let rel: String = relative_key_of(full, &self.prefix);
            assert(full@ == page[i as int]@);
            assert(part_of(self.prefix) == before.prefix);
            let ghost items_before = self.items.deep_view();
            assert(pv[i as int] == page[i as int]@);
            self.items.push(rel);
            assert(self.items.deep_view() =~= items_before.push(rel@));
            assert(relative_keys(pv.take(i + 1), before.prefix) =~= relative_keys(
                pv.take(i as int),
                before.prefix,
            ).push(relative_key(pv[i as int], before.prefix)));
            assert(rel@ == relative_key(pv[i as int], before.prefix));
            assert(before.items + relative_keys(pv.take(i + 1), before.prefix) =~= (before.items
                + relative_keys(pv.take(i as int), before.prefix)).push(rel@));
            i = i + 1;
        }
        assert(pv.take(i as int) =~= pv);
        let n: usize = page.len();
        let next: Option<String> = if n == 0 {
            self.start_after()
        } else {
            match self.mode {
                CursorMode::FullKey => Some(page[n - 1].clone()),
                CursorMode::RelativeKey => {
                    let m: usize = self.items.len();
                    assert(m > 0) by {
                        assert(relative_keys(pv, before.prefix).len() == n);
                    }
                    Some(self.items[m - 1].clone())
                },
            }
        };
        self.done = same_key(&next, &self.cursor);
        self.cursor = next;
    }
}

/// Where a store holding `keys`, in listing order and without repeats, starts
/// the page after `cursor`: at the front for no cursor, after the cursor's
/// position when it holds it, and past the end otherwise.
pub open spec fn page_start(keys: Seq<Seq<char>>, cursor: Option<Seq<char>>) -> int {
    match cursor {
        None => 0,
        Some(c) => if keys.contains(c) {
            (choose|i: int| 0 <= i < keys.len() && keys[i] == c) + 1
        } else {
            keys.len() as int
        },
    }
}

/// The page that a store holding `keys` returns after `cursor`, with at most
/// `k` keys to a page.
pub open spec fn store_page(keys: Seq<Seq<char>>, cursor: Option<Seq<char>>, k: nat) -> Seq<
    Seq<char>,
> {
    let start = page_start(keys, cursor);
    let end = if start + k <= keys.len() {
        start + k
    } else {
        keys.len() as int
    };
    keys.subrange(start, end)
}

/// The state of a listing after at most `n` page requests to a store holding
/// `keys`; no request follows once the listing is done.
pub open spec fn run_listing(s: ListingState, keys: Seq<Seq<char>>, k: nat, n: nat) -> ListingState
    decreases n,
{
    if n == 0 || s.done {
        s
    } else {
        run_listing(after_page(s, store_page(keys, s.cursor, k)), keys, k, (n - 1) as nat)
    }
}

/// Whether a store key lies under the sub-path `prefix`: behind the sub-path
/// and a slash, or, for the whole bucket, not led by a slash.
pub open spec fn under_prefix(key: Seq<char>, prefix: Seq<char>) -> bool {
    if prefix.len() == 0 {
        key.len() == 0 || key[0] != '/'
    } else {
        key.len() > prefix.len() && key.subrange(0, prefix.len() as int) == prefix
            && key[prefix.len() as int] == '/'
    }
}

/// The number of page requests that a listing makes when `remaining` keys are
/// left and pages hold `k` keys: one per non-empty page and a final empty one.
pub open spec fn requests_needed(remaining: nat, k: nat) -> nat
    decreases remaining,
{
    if remaining == 0 || k == 0 {
        1
    } else if remaining <= k {
        2
    } else {
        1 + requests_needed((remaining - k) as nat, k)
    }
}

proof fn lemma_requests_needed(remaining: nat, k: nat)
    requires
        k > 0,
    ensures
        requests_needed(remaining, k) == (remaining + k - 1) / (k as int) + 1,
    decreases remaining,
{
    if remaining == 0 {
        assert((k - 1) / (k as int) == 0) by (nonlinear_arith)
            requires
                k > 0,
        ;
    } else if remaining <= k {
        assert((remaining + k - 1) / (k as int) == 1) by (nonlinear_arith)
            requires
                k > 0,
                0 < remaining <= k,
        ;
    } else {
        lemma_requests_needed((remaining - k) as nat, k);
        assert((remaining + k - 1) / (k as int) == (remaining - k + k - 1) / (k as int) + 1)
            by (nonlinear_arith)
            requires
                k > 0,
                remaining > k,
        ;
    }
}

proof fn lemma_page_start(keys: Seq<Seq<char>>, c: int)
    requires
        keys.no_duplicates(),
        0 <= c <= keys.len(),
    ensures
        page_start(keys, if c == 0 { None } else { Some(keys[c - 1]) }) == c,
{
    if c > 0 {
        assert(keys.contains(keys[c - 1]));
        let i = choose|i: int| 0 <= i < keys.len() && #[trigger] keys[i] == keys[c - 1];
        assert(i == c - 1);
    }
}

proof fn lemma_run_from(s: ListingState, keys: Seq<Seq<char>>, k: nat, c: nat)
    requires
        keys.no_duplicates(),
        k > 0,
        c <= keys.len(),
        s.mode == CursorMode::FullKey,
        !s.done,
        s.items == relative_keys(keys.take(c as int), s.prefix),
        s.cursor == (if c == 0 { None } else { Some(keys[c - 1]) }),
    ensures
        ({
            let n = requests_needed((keys.len() - c) as nat, k);
            &&& !run_listing(s, keys, k, (n - 1) as nat).done
            &&& run_listing(s, keys, k, n).done
            &&& run_listing(s, keys, k, n).items == relative_keys(keys, s.prefix)
        }),
    decreases keys.len() - c,
{
    lemma_page_start(keys, c as int);
    let page = store_page(keys, s.cursor, k);
    let next = after_page(s, page);
    let n = requests_needed((keys.len() - c) as nat, k);
    assert(run_listing(s, keys, k, 0) == s);
    if c == keys.len() {
        assert(page.len() == 0);
        assert(relative_keys(page, s.prefix) =~= Seq::<Seq<char>>::empty());
        assert(next.items =~= s.items);
        assert(keys.take(c as int) =~= keys);
        assert(run_listing(next, keys, k, 0) == next);
    } else {
        let m: nat = if c + k <= keys.len() {
            k
        } else {
            (keys.len() - c) as nat
        };
        assert(page =~= keys.subrange(c as int, (c + m) as int));
        assert(next.items =~= relative_keys(keys.take((c + m) as int), s.prefix));
        assert(page.last() == keys[c + m - 1]);
        if c > 0 {
            assert(keys[c + m - 1] != keys[c - 1]);
        }
        assert(!next.done);
        lemma_run_from(next, keys, k, (c + m) as nat);
    }
}

/// Listing a store of `keys` (full keys under `prefix`, in listing order, no
/// repeats) with pages of `k` keys ends after exactly ceil(N / k) + 1 page
/// requests, and yields the N keys made relative, in order, with no repeats.
pub proof fn lemma_listing_terminates(keys: Seq<Seq<char>>, prefix: Seq<char>, k: nat)
    requires
        keys.no_duplicates(),
        k > 0,
        forall|i: int| 0 <= i < keys.len() ==> under_prefix(#[trigger] keys[i], prefix),
    ensures
        ({
            let n = (keys.len() + k - 1) / (k as int) + 1;
            let s = initial_listing(prefix, CursorMode::FullKey);
            &&& !run_listing(s, keys, k, (n - 1) as nat).done
            &&& run_listing(s, keys, k, n as nat).done
            &&& run_listing(s, keys, k, n as nat).items == relative_keys(keys, prefix)
            &&& relative_keys(keys, prefix).len() == keys.len()
            &&& relative_keys(keys, prefix).no_duplicates()
        }),
{
    let s = initial_listing(prefix, CursorMode::FullKey);
    assert(relative_keys(keys.take(0), prefix) =~= Seq::<Seq<char>>::empty());
    lemma_run_from(s, keys, k, 0);
    lemma_requests_needed(keys.len(), k);
    let rel = relative_keys(keys, prefix);
    assert forall|i: int, j: int| 0 <= i < rel.len() && 0 <= j < rel.len() && i != j implies rel[i]
        != rel[j] by {
        lemma_relative_key_under_prefix(keys[i], prefix);
        lemma_relative_key_under_prefix(keys[j], prefix);
        if rel[i] == rel[j] {
            assert(keys[i] =~= keys[j]);
        }
    }
}

proof fn lemma_relative_key_under_prefix(key: Seq<char>, prefix: Seq<char>)
    requires
        under_prefix(key, prefix),
    ensures
        prefix.len() == 0 ==> relative_key(key, prefix) == key,
        prefix.len() > 0 ==> key =~= prefix + seq!['/'] + relative_key(key, prefix),
{
    if prefix.len() == 0 {
        assert(key.subrange(0, key.len() as int) =~= key);
    } else {
        let rest = key.subrange(prefix.len() as int, key.len() as int);
        assert(rest[0] == '/');
        assert(key =~= prefix + seq!['/'] + rest.drop_first());
    }
}

} // verus!
