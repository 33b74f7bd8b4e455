//! Addresses of S3 objects.
use vstd::prelude::*;

verus! {

/// The public address of object `key` in `bucket`.
pub open spec fn s3_url_spec(bucket: Seq<char>, key: Seq<char>) -> Seq<char> {
    "http://"@ + bucket + ".s3.amazonaws.com/"@ + key
}

/// The public address of an object, where both bucket and key are known.
pub open spec fn s3_url_opt_spec(bucket: Option<Seq<char>>, key: Option<Seq<char>>) -> Option<
    Seq<char>,
> {
    match (bucket, key) {
        (Some(b), Some(k)) => Some(s3_url_spec(b, k)),
        _ => None,
    }
}

/// The view of an optional string.
pub open spec fn opt_view(s: Option<String>) -> Option<Seq<char>> {
    match s {
        Some(x) => Some(x@),
        None => None,
    }
}

/// `http://<bucket>.s3.amazonaws.com/<key>`.
pub fn s3_url(bucket_name: &String, key_name: &String) -> (r: String)
    ensures
        r@ == s3_url_spec(bucket_name@, key_name@),
{
    let mut r = String::from_str("http://");
    r.append(bucket_name.as_str());
    r.append(".s3.amazonaws.com/");
    r.append(key_name.as_str());
    r
}

/// The address of an object, or `None` where the bucket or the key is missing.
pub fn s3_url_opt(bucket_name: Option<String>, key_name: Option<String>) -> (r: Option<String>)
    ensures
        opt_view(r) == s3_url_opt_spec(opt_view(bucket_name), opt_view(key_name)),
{
    match (bucket_name, key_name) {
        (Some(b), Some(k)) => Some(s3_url(&b, &k)),
        _ => None,
    }
}

/// The keys of a bucket listing, in order, skipping objects that carry none.
pub open spec fn listed_keys(listed: Seq<Option<String>>) -> Seq<Seq<char>>
    decreases listed.len(),
{
    if listed.len() == 0 {
        Seq::empty()
    } else {
        let rest = listed_keys(listed.drop_last());
        match listed.last() {
            Some(k) => rest.push(k@),
            None => rest,
        }
    }
}

/// The keys of the objects of a listing, in the listing's order.
pub fn object_keys(listed: Vec<Option<String>>) -> (keys: Vec<String>)
    ensures
        keys@.map_values(|k: String| k@) == listed_keys(listed@),
{
    let mut keys: Vec<String> = Vec::new();
    let mut i: usize = 0;
    while i < listed.len()
        invariant
            i <= listed@.len(),
            keys@.map_values(|k: String| k@) == listed_keys(listed@.subrange(0, i as int)),
        decreases listed@.len() - i,
    {
        proof {
            assert(listed@.subrange(0, i + 1).drop_last() =~= listed@.subrange(0, i as int));
        }
        match &listed[i] {
            Some(k) => {
                keys.push(k.clone());
            },
            None => {},
        }
        proof {
            assert(keys@.map_values(|k: String| k@) =~= listed_keys(listed@.subrange(0, i + 1)));
        }
        i = i + 1;
    }
    proof {
        assert(listed@.subrange(0, listed@.len() as int) =~= listed@);
    }
    keys
}

} // verus!
