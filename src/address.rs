use vstd::prelude::*;

verus! {

/// A bucket named by a store path: the bucket's name and the sub-path under it.
#[derive(Debug, Clone)]
pub struct Bucket {
    /// The name of the bucket, without the scheme marker.
    pub name: String,
    /// The sub-path under the bucket, with no leading or trailing slash;
    /// `None` stands for the whole bucket.
    pub path: Option<String>,
}

/// The scheme marker that may open a store path.
pub open spec fn scheme_marker() -> Seq<char> {
    seq!['s', '3', ':', '/', '/']
}

/// The store path with a leading scheme marker removed, if it has one.
pub open spec fn without_scheme(s: Seq<char>) -> Seq<char> {
    if s.len() >= 5 && s.subrange(0, 5) == scheme_marker() {
        s.subrange(5, s.len() as int)
    } else {
        s
    }
}

/// The position of the first slash in `s`, or its length when it has none.
pub open spec fn first_slash(s: Seq<char>) -> int
    decreases s.len(),
{
    if s.len() == 0 {
        0
    } else if s[0] == '/' {
        0
    } else {
        1 + first_slash(s.drop_first())
    }
}

/// The bucket name of a store path: what stands before the first slash.
pub open spec fn name_of(s: Seq<char>) -> Seq<char> {
    let rest = without_scheme(s);
    rest.subrange(0, first_slash(rest))
}

/// The normalized sub-path of a raw path that starts with a slash: that slash
/// and one trailing slash removed.
pub open spec fn trimmed_path(raw: Seq<char>) -> Seq<char> {
    let p = raw.drop_first();
    if p.len() > 0 && p.last() == '/' {
        p.drop_last()
    } else {
        p
    }
}

/// The sub-path of a store path: after the first slash, trimmed, and `None`
/// when nothing is left.
pub open spec fn path_of(s: Seq<char>) -> Option<Seq<char>> {
    let rest = without_scheme(s);
    let raw = rest.subrange(first_slash(rest), rest.len() as int);
    if raw.len() == 0 || trimmed_path(raw).len() == 0 {
        None
    } else {
        Some(trimmed_path(raw))
    }
}

/// An optional string as an optional sequence of characters.
pub open spec fn path_view(p: Option<String>) -> Option<Seq<char>> {
    match p {
        Some(s) => Some(s@),
        None => None,
    }
}

proof fn lemma_first_slash(s: Seq<char>, i: int)
    requires
        0 <= i <= s.len(),
        forall|j: int| 0 <= j < i ==> s[j] != '/',
        i == s.len() || s[i] == '/',
    ensures
        first_slash(s) == i,
    decreases s.len(),
{
    if s.len() > 0 && s[0] != '/' {
        assert forall|j: int| 0 <= j < i - 1 implies s.drop_first()[j] != '/' by {
            assert(s[j + 1] != '/');
        }
        lemma_first_slash(s.drop_first(), i - 1);
    }
}

proof fn lemma_first_slash_bounds(s: Seq<char>)
    ensures
        0 <= first_slash(s) <= s.len(),
    decreases s.len(),
{
    if s.len() > 0 && s[0] != '/' {
        lemma_first_slash_bounds(s.drop_first());
    }
}

impl Bucket {
    /// Parses a store path `[s3://]<name>[/<sub-path>]` into a bucket. Every
    /// string gives some bucket.
    pub fn new(bucket_name: &str) -> (r: Bucket)
        ensures
            r.name@ == name_of(bucket_name@),
            path_view(r.path) == path_of(bucket_name@),
    {
        let len: usize = bucket_name.unicode_len();
        let has_scheme: bool = len >= 5 && bucket_name.get_char(0) == 's' && bucket_name.get_char(1)
            == '3' && bucket_name.get_char(2) == ':' && bucket_name.get_char(3) == '/'
            && bucket_name.get_char(4) == '/';
        let start: usize = if has_scheme {
            5
        } else {
            0
        };
        let rest: &str = bucket_name.substring_char(start, len);
        proof {
            if has_scheme {
                assert(bucket_name@.subrange(0, 5) =~= scheme_marker());
            } else if len >= 5 {
                assert(bucket_name@.subrange(0, 5)[0] == bucket_name@[0]);
                assert(bucket_name@.subrange(0, 5)[1] == bucket_name@[1]);
                assert(bucket_name@.subrange(0, 5)[2] == bucket_name@[2]);
                assert(bucket_name@.subrange(0, 5)[3] == bucket_name@[3]);
                assert(bucket_name@.subrange(0, 5)[4] == bucket_name@[4]);
                assert(bucket_name@.subrange(0, 5) != scheme_marker());
            }
            assert(rest@ =~= without_scheme(bucket_name@));
        }
        let rest_len: usize = len - start;
        let mut i: usize = 0;
        while i < rest_len && rest.get_char(i) != '/'
            invariant
                rest@.len() == rest_len,
                i <= rest_len,
                forall|j: int| 0 <= j < i ==> rest@[j] != '/',
            decreases rest_len - i,
        {
            i = i + 1;
        }
        proof {
            lemma_first_slash(rest@, i as int);
        }
        let name: String = String::from_str(rest.substring_char(0, i));
        let raw: &str = rest.substring_char(i, rest_len);
        let mut path: Option<String> = None;
        if rest_len - i > 0 {
            let raw_len: usize = rest_len - i;
            let end: usize = if raw_len > 1 && raw.get_char(raw_len - 1) == '/' {
                raw_len - 1
            } else {
                raw_len
            };
            proof {
                assert(raw@.drop_first() =~= raw@.subrange(1, raw_len as int));
                if raw_len > 1 && raw@[raw_len - 1] == '/' {
                    assert(raw@.subrange(1, end as int) =~= raw@.drop_first().drop_last());
                }
            }
            if end > 1 {
                path = Some(String::from_str(raw.substring_char(1, end)));
            }
        }
        Bucket { name, path }
    }
}

} // verus!
