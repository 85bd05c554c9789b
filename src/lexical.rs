use vstd::prelude::*;
use vstd::string::StringSliceAdditionalSpecFns;

verus! {

/// `needle` stands in `haystack` starting at offset `i`.
pub open spec fn occurs_at(haystack: Seq<u8>, needle: Seq<u8>, i: int) -> bool {
    0 <= i && i + needle.len() <= haystack.len() && haystack.subrange(i, i + needle.len())
        == needle
}

/// The first offset at or after `from` where `needle` stands in `haystack`.
pub open spec fn first_occurrence_from(haystack: Seq<u8>, needle: Seq<u8>, from: int) -> Option<
    int,
>
    decreases haystack.len() + 1 - from,
{
    if from < 0 || from + needle.len() > haystack.len() {
        None
    } else if occurs_at(haystack, needle, from) {
        Some(from)
    } else {
        first_occurrence_from(haystack, needle, from + 1)
    }
}

/// The leftmost offset where `needle` stands in `haystack`, if any.
pub open spec fn first_occurrence(haystack: Seq<u8>, needle: Seq<u8>) -> Option<int> {
    first_occurrence_from(haystack, needle, 0)
}

/// ASCII lower-casing of one byte; other bytes are kept.
pub open spec fn ascii_lower(b: u8) -> u8 {
    if 65 <= b <= 90 {
        (b + 32) as u8
    } else {
        b
    }
}

/// `line` starts with `name`, ASCII letters compared without regard to case.
pub open spec fn has_name_prefix(line: Seq<u8>, name: Seq<u8>) -> bool {
    line.len() >= name.len() && forall|i: int|
        0 <= i < name.len() ==> #[trigger] ascii_lower(line[i]) == ascii_lower(name[i])
}

proof fn lemma_first_occurrence_from(haystack: Seq<u8>, needle: Seq<u8>, from: int, p: Option<int>)
    requires
        0 <= from,
        match p {
            Some(i) => from <= i && occurs_at(haystack, needle, i) && forall|j: int|
                from <= j < i ==> !occurs_at(haystack, needle, j),
            None => forall|j: int| from <= j ==> !occurs_at(haystack, needle, j),
        },
    ensures
        first_occurrence_from(haystack, needle, from) == p,
    decreases haystack.len() + 1 - from,
{
    if from + needle.len() > haystack.len() {
        if let Some(i) = p {
            assert(occurs_at(haystack, needle, i));
        }
    } else if occurs_at(haystack, needle, from) {
    } else {
        lemma_first_occurrence_from(haystack, needle, from + 1, p);
    }
}

/// Characterises the leftmost occurrence: `p` is it exactly when `p` is an
/// occurrence with none before it, or `None` when there is none at all.
pub proof fn lemma_first_occurrence(haystack: Seq<u8>, needle: Seq<u8>, p: Option<int>)
    requires
        match p {
            Some(i) => occurs_at(haystack, needle, i) && forall|j: int|
                0 <= j < i ==> !occurs_at(haystack, needle, j),
            None => forall|j: int| 0 <= j ==> !occurs_at(haystack, needle, j),
        },
    ensures
        first_occurrence(haystack, needle) == p,
{
    lemma_first_occurrence_from(haystack, needle, 0, p);
}

/// Finds the first offset in `haystack` where `needle` occurs as a contiguous run.
pub fn find_sequence(haystack: &[u8], needle: &[u8]) -> (r: Option<usize>)
    requires
        needle@.len() > 0,
    ensures
        r is None <==> first_occurrence(haystack@, needle@) is None,
        r matches Some(i) ==> first_occurrence(haystack@, needle@) == Some(i as int),
        match r {
            Some(i) => occurs_at(haystack@, needle@, i as int) && forall|j: int|
                0 <= j < i ==> !occurs_at(haystack@, needle@, j),
            None => forall|j: int| !occurs_at(haystack@, needle@, j),
        },
{
    if haystack.len() < needle.len() {
        proof {
            lemma_first_occurrence(haystack@, needle@, None);
        }
        return None;
    }
    let last: usize = haystack.len() - needle.len();
    let mut p: usize = 0;
    while p <= last
        invariant
            last == haystack@.len() - needle@.len(),
            needle@.len() > 0,
            haystack@.len() <= usize::MAX,
            p <= last + 1,
            forall|j: int| 0 <= j < p ==> !occurs_at(haystack@, needle@, j),
        decreases last + 1 - p,
    {
        let mut k: usize = 0;
        let mut same = true;
        while k < needle.len()
            invariant
                p <= last,
                last == haystack@.len() - needle@.len(),
                haystack@.len() <= usize::MAX,
                k <= needle@.len(),
                same <==> forall|t: int| 0 <= t < k ==> haystack@[p + t] == needle@[t],
            decreases needle@.len() - k,
        {
            if haystack[p + k] != needle[k] {
                same = false;
            }
            k = k + 1;
        }
        if same {
            proof {
                assert(haystack@.subrange(p as int, p + needle@.len()) =~= needle@);
                lemma_first_occurrence(haystack@, needle@, Some(p as int));
            }
            return Some(p);
        }
        proof {
            assert(!occurs_at(haystack@, needle@, p as int)) by {
                if occurs_at(haystack@, needle@, p as int) {
                    let t = choose|t: int| 0 <= t < needle@.len() && haystack@[p + t] != needle@[t];
                    assert(haystack@.subrange(p as int, p + needle@.len())[t] == haystack@[p + t]);
                }
            }
        }
        p = p + 1;
    }
    proof {
        lemma_first_occurrence(haystack@, needle@, None);
    }
    None
}

/// ASCII lower-casing of one byte.
pub fn to_ascii_lower(b: u8) -> (r: u8)
    ensures
        r == ascii_lower(b),
{
    if 65 <= b && b <= 90 {
        b + 32
    } else {
        b
    }
}

/// Tells whether `bytes` starts with `name`, ASCII letters compared without regard to case.
pub fn has_prefix_ignore_case(bytes: &[u8], name: &[u8]) -> (r: bool)
    ensures
        r == has_name_prefix(bytes@, name@),
{
    if bytes.len() < name.len() {
        return false;
    }
    let mut i: usize = 0;
    while i < name.len()
        invariant
            name@.len() <= bytes@.len(),
            i <= name@.len(),
            forall|t: int| 0 <= t < i ==> #[trigger] ascii_lower(bytes@[t]) == ascii_lower(name@[t]),
        decreases name@.len() - i,
    {
        if to_ascii_lower(bytes[i]) != to_ascii_lower(name[i]) {
            return false;
        }
        i = i + 1;
    }
    true
}

/// Tells whether the header line `line` starts with the field name `hdr`, ignoring ASCII case.
/// A line shorter than the name never matches.
pub fn match_header(line: &str, hdr: &str) -> (r: bool)
    ensures
        r == has_name_prefix(line.spec_bytes(), hdr.spec_bytes()),
{
    has_prefix_ignore_case(line.as_bytes(), hdr.as_bytes())
}

} // verus!
