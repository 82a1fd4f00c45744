//! A chain of certificates in one text, and the certificates that it holds.

use vstd::prelude::*;
use vstd::string::*;

verus! {

/// The line that ends a certificate in PEM.
pub open spec fn end_of_certificate() -> Seq<char> {
    "-----END CERTIFICATE-----"@
}

/// Whether `marker` stands in `text` at `place`.
pub open spec fn stands_at(text: Seq<char>, marker: Seq<char>, place: int) -> bool {
    &&& 0 <= place
    &&& place + marker.len() <= text.len()
    &&& forall|k: int| 0 <= k < marker.len() ==> text[place + k] == #[trigger] marker[k]
}

/// The first place at or after `from` at which `marker` stands in `text`.
pub open spec fn first_place(text: Seq<char>, marker: Seq<char>, from: int) -> Option<int>
    decreases text.len() - from,
{
    if from < 0 || from + marker.len() > text.len() {
        None
    } else if stands_at(text, marker, from) {
        Some(from)
    } else {
        first_place(text, marker, from + 1)
    }
}

/// Whether `c` is white space.
pub open spec fn is_space(c: char) -> bool {
    let code = c as u32;
    ||| 0x09 <= code <= 0x0D
    ||| code == 0x20
    ||| code == 0x85
    ||| code == 0xA0
    ||| code == 0x1680
    ||| 0x2000 <= code <= 0x200A
    ||| code == 0x2028
    ||| code == 0x2029
    ||| code == 0x202F
    ||| code == 0x205F
    ||| code == 0x3000
}

/// The place of the first character of `text`, at or after `from` and
/// before `to`, that is no white space; `to` where there is none.
pub open spec fn start_of_text(text: Seq<char>, from: int, to: int) -> int
    decreases to - from,
{
    if from >= to {
        to
    } else if is_space(text[from]) {
        start_of_text(text, from + 1, to)
    } else {
        from
    }
}

/// The place after the last character of `text`, at or after `from` and
/// before `to`, that is no white space; `from` where there is none.
pub open spec fn end_of_text(text: Seq<char>, from: int, to: int) -> int
    decreases to - from,
{
    if from >= to {
        from
    } else if is_space(text[to - 1]) {
        end_of_text(text, from, to - 1)
    } else {
        to
    }
}

/// The part of `text` between `from` and `to`, without the white space at
/// its ends.
pub open spec fn trimmed(text: Seq<char>, from: int, to: int) -> Seq<char> {
    let start = start_of_text(text, from, to);
    text.subrange(start, end_of_text(text, start, to))
}

/// The certificates that `text` holds from `from` on: each reaches to the
/// end of the next marker and stands without the white space at its ends.
/// What follows the last marker is left out.
pub open spec fn certificates_from(text: Seq<char>, marker: Seq<char>, from: int) -> Seq<
    Seq<char>,
>
    decreases text.len() - from,
{
    match first_place(text, marker, from) {
        Some(place) => if from <= place && place + marker.len() <= text.len() && marker.len()
            > 0 {
            seq![trimmed(text, from, place + marker.len())] + certificates_from(
                text,
                marker,
                place + marker.len(),
            )
        } else {
            Seq::empty()
        },
        None => Seq::empty(),
    }
}

/// The certificates that the chain `text` holds.
pub open spec fn certificates_of(text: Seq<char>) -> Seq<Seq<char>> {
    certificates_from(text, end_of_certificate(), 0)
}

/// The first place of a marker lies at or after the start of the search,
/// and the marker stands there and nowhere between.
pub proof fn lemma_first_place(text: Seq<char>, marker: Seq<char>, from: int)
    requires
        0 <= from,
    ensures
        match first_place(text, marker, from) {
            Some(place) => from <= place && stands_at(text, marker, place) && forall|i: int|
                from <= i < place ==> !stands_at(text, marker, i),
            None => forall|i: int| from <= i ==> !stands_at(text, marker, i),
        },
    decreases text.len() - from,
{
    if from + marker.len() <= text.len() && !stands_at(text, marker, from) {
        lemma_first_place(text, marker, from + 1);
    }
}

/// The characters of `text`.
fn chars_of(text: &str) -> (chars: Vec<char>)
    ensures
        chars@ == text@,
{
    let len = text.unicode_len();
    let mut chars: Vec<char> = Vec::new();
    let mut i: usize = 0;
    while i < len
        invariant
            i <= len == text@.len(),
            chars@ == text@.take(i as int),
        decreases len - i,
    {
        chars.push(text.get_char(i));
        assert(chars@ =~= text@.take(i + 1));
        i += 1;
    }
    assert(text@.take(i as int) =~= text@);
    chars
}

/// Whether `marker` stands in `text` at `place`.
fn marker_stands_at(text: &Vec<char>, marker: &Vec<char>, place: usize) -> (stands: bool)
    requires
        place + marker.len() <= text.len(),
    ensures
        stands == stands_at(text@, marker@, place as int),
{
    let mut k: usize = 0;
    while k < marker.len()
        invariant
            k <= marker.len(),
            place + marker.len() <= text.len(),
            forall|j: int| 0 <= j < k ==> text@[place + j] == #[trigger] marker@[j],
        decreases marker.len() - k,
    {
        if text[place + k] != marker[k] {
            return false;
        }
        k += 1;
    }
    true
}

/// Finds the first place of `marker` in `text` at or after `from`.
fn find_marker(text: &Vec<char>, marker: &Vec<char>, from: usize) -> (found: Option<usize>)
    requires
        from <= text.len(),
    ensures
        match found {
            Some(place) => first_place(text@, marker@, from as int) == Some(place as int),
            None => first_place(text@, marker@, from as int) is None,
        },
{
    if marker.len() > text.len() {
        return None;
    }
    let last = text.len() - marker.len();
    let mut i: usize = from;
    while i <= last
        invariant
            from <= i,
            last == text.len() - marker.len(),
            first_place(text@, marker@, from as int) == first_place(text@, marker@, i as int),
        decreases last + 1 - i,
    {
        if marker_stands_at(text, marker, i) {
            return Some(i);
        }
        i += 1;
    }
    None
}

/// Whether `c` is white space.
fn is_white_space(c: char) -> (space: bool)
    ensures
        space == is_space(c),
{
    let code: u32 = c as u32;
    (0x09 <= code && code <= 0x0D) || code == 0x20 || code == 0x85 || code == 0xA0 || code
        == 0x1680 || (0x2000 <= code && code <= 0x200A) || code == 0x2028 || code == 0x2029
        || code == 0x202F || code == 0x205F || code == 0x3000
}

/// Splits a chain of certificates in PEM into its certificates.
pub fn split_certificate_chain(chain: &str) -> (certificates: Vec<String>)
    ensures
        certificates.deep_view() == certificates_of(chain@),
{
    let text = chars_of(chain);
    let marker = chars_of("-----END CERTIFICATE-----");
    proof {
        reveal_strlit("-----END CERTIFICATE-----");
    }
    let mut certificates: Vec<String> = Vec::new();
    let mut from: usize = 0;
    assert(certificates.deep_view() =~= Seq::<Seq<char>>::empty());
    loop
        invariant
            from <= text.len(),
            text@ == chain@,
            marker@ == end_of_certificate(),
            marker@.len() > 0,
            certificates_of(chain@) == certificates.deep_view() + certificates_from(
                text@,
                marker@,
                from as int,
            ),
        decreases text.len() - from,
    {
        match find_marker(&text, &marker, from) {
            Some(place) => {
                proof {
                    lemma_first_place(text@, marker@, from as int);
                }
                let to = place + marker.len();
                let mut start = from;
                while start < to && is_white_space(text[start])
                    invariant
                        from <= start <= to <= text.len(),
                        start_of_text(text@, from as int, to as int) == start_of_text(
                            text@,
                            start as int,
                            to as int,
                        ),
                    decreases to - start,
                {
                    start += 1;
                }
                let mut end = to;
                while start < end && is_white_space(text[end - 1])
                    invariant
                        start <= end <= to <= text.len(),
                        end_of_text(text@, start as int, to as int) == end_of_text(
                            text@,
                            start as int,
                            end as int,
                        ),
                    decreases end - start,
                {
                    end -= 1;
                }
                let certificate = chain.substring_char(start, end).to_owned();
                let ghost before = certificates.deep_view();
                certificates.push(certificate);
                assert(certificates.deep_view() =~= before.push(certificate@));
                assert(certificates.deep_view() + certificates_from(text@, marker@, to as int)
                    =~= before + certificates_from(text@, marker@, from as int));
                from = to;
            },
            None => {
                assert(certificates_from(text@, marker@, from as int) =~= Seq::<
                    Seq<char>,
                >::empty());
                assert(certificates.deep_view() + Seq::<Seq<char>>::empty()
                    =~= certificates.deep_view());
                return certificates;
            },
        }
    }
}

} // verus!
