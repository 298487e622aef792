use vstd::prelude::*;

verus! {

/// The error returned when a key is requested from parts that are all absent or empty.
#[derive(Debug, Clone, Copy, PartialEq, Eq, Structural)]
pub struct InvalidKeyError;

/// The value of an optional part once absence is read as the empty string.
pub open spec fn part_of(p: Option<String>) -> Seq<char> {
    match p {
        Some(s) => s@,
        None => Seq::empty(),
    }
}

/// The full store key for an optional prefix and an optional relative key: the
/// parts that are present and non-empty, joined by a single slash.
pub open spec fn joined_key(prefix: Seq<char>, key: Seq<char>) -> Seq<char> {
    if prefix.len() == 0 {
        key
    } else if key.len() == 0 {
        prefix
    } else {
        prefix + seq!['/'] + key
    }
}

/// Joins a prefix and a relative key into the key used by get and put requests.
/// Absent and empty parts are left out; with no part left the key is invalid.
pub fn format_key(parts: [&Option<String>; 2]) -> (r: Result<String, InvalidKeyError>)
    ensures
        ({
            let prefix = part_of(*parts[0]);
            let key = part_of(*parts[1]);
            match r {
                Ok(k) => (prefix.len() > 0 || key.len() > 0) && k@ == joined_key(prefix, key),
                Err(_) => prefix.len() == 0 && key.len() == 0,
            }
        }),
{
    let prefix: &Option<String> = parts[0];
    let key: &Option<String> = parts[1];
    let has_prefix: bool = match prefix {
        Some(p) => p.as_str().unicode_len() > 0,
        None => false,
    };
    let has_key: bool = match key {
        Some(k) => k.as_str().unicode_len() > 0,
        None => false,
    };
    if has_prefix && has_key {
        let mut out: String = prefix.as_ref().unwrap().clone();
        proof {
            reveal_strlit("/");
        }
        out.append("/");
        out.append(key.as_ref().unwrap().as_str());
        Ok(out)
    } else if has_prefix {
        Ok(prefix.as_ref().unwrap().clone())
    } else if has_key {
        Ok(key.as_ref().unwrap().clone())
    } else {
        Err(InvalidKeyError)
    }
}

} // verus!
