//! Fresh identifiers for uploaded benchmarks and sandboxes.
use vstd::prelude::*;

verus! {

/// A lowercase hexadecimal digit.
pub open spec fn is_lower_hex(c: char) -> bool {
    ('0' <= c && c <= '9') || ('a' <= c && c <= 'f')
}

/// The hyphenated form of a UUID: 36 characters, hyphens at positions 8, 13,
/// 18 and 23, lowercase hexadecimal digits elsewhere.
pub open spec fn is_hyphenated_uuid(s: Seq<char>) -> bool {
    &&& s.len() == 36
    &&& forall|i: int|
        0 <= i < 36 ==> if i == 8 || i == 13 || i == 18 || i == 23 {
            s[i] == '-'
        } else {
            is_lower_hex(#[trigger] s[i])
        }
}

/// `uuid::Uuid::new_v4().to_string()`: a random UUID in its hyphenated,
/// lowercase form. Its digits come from the operating system's random source,
/// so the contract states only the form of the text, which the crate's
/// `Display` writes through its hyphenated lowercase encoder.
#[verifier::external_body]
pub(crate) fn new_uuid() -> (s: String)
    ensures
        is_hyphenated_uuid(s@),
{
    uuid::Uuid::new_v4().to_string()
}

/// The key under which a benchmark directory is uploaded: its name, a hyphen,
/// and an identifier.
pub fn benchmark_key_with(benchmark_name: &String, id: &String) -> (k: String)
    ensures
        k@ == benchmark_name@ + "-"@ + id@,
{
    let mut k = benchmark_name.clone();
    k.append("-");
    k.append(id.as_str());
    k
}

/// A fresh key for a benchmark: its name, a hyphen and a random UUID.
pub fn benchmark_key(benchmark_name: &String) -> (k: String)
    ensures
        exists|id: Seq<char>| is_hyphenated_uuid(id) && k@ == benchmark_name@ + "-"@ + id,
{
    let id = new_uuid();
    benchmark_key_with(benchmark_name, &id)
}

} // verus!
