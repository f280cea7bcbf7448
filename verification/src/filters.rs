use crate::error::PacketError;
use crate::text::byte_len;
use crate::utils::lemma_utf8_field_round_trip;
use crate::utils::parse_utf8_string;
use crate::utils::spec_read_utf8_string;
use crate::utils::spec_utf8_field;
use crate::utils::write_utf8_string;
use crate::utils::MAX_STRING_LENGTH;
use vstd::prelude::*;
use vstd::utf8::encode_utf8;

verus! {

/// The texts that a run of strings holds.
pub open spec fn spec_texts(strings: Seq<String>) -> Seq<Seq<char>> {
    Seq::new(strings.len(), |i: int| strings[i]@)
}

/// A copy of the strings.
pub fn clone_texts(strings: &Vec<String>) -> (r: Vec<String>)
    ensures
        spec_texts(r@) == spec_texts(strings@),
{
    let mut copy: Vec<String> = Vec::new();
    let mut i: usize = 0;
    while i < strings.len()
        invariant
            i <= strings.len(),
            copy@.len() == i,
            forall|j: int| 0 <= j < i ==> copy@[j]@ == strings@[j]@,
        decreases strings.len() - i,
    {
        copy.push(strings[i].clone());
        i += 1;
    }
    assert(spec_texts(copy@) =~= spec_texts(strings@));
    copy
}

/// The byte that follows a topic filter: its quality of service in a
/// SUBSCRIBE, nothing in an UNSUBSCRIBE.
pub open spec fn spec_qos_byte(with_qos: bool, qos: Seq<u8>, i: int) -> Seq<u8> {
    if with_qos {
        seq![qos[i]]
    } else {
        Seq::empty()
    }
}

/// The topic filters from the one at `i` on as the wire holds them: each a
/// string field, followed by its quality of service where `with_qos` holds.
pub open spec fn spec_entries_from(
    filters: Seq<Seq<char>>,
    qos: Seq<u8>,
    with_qos: bool,
    i: nat,
) -> Seq<u8>
    decreases filters.len() - i,
{
    if i >= filters.len() {
        Seq::empty()
    } else {
        spec_utf8_field(filters[i as int]) + spec_qos_byte(with_qos, qos, i as int)
            + spec_entries_from(filters, qos, with_qos, i + 1)
    }
}

/// True where each of the filters fits in a string field and, where
/// `with_qos` holds, has a quality of service.
pub open spec fn spec_entries_encodable(filters: Seq<Seq<char>>, qos: Seq<u8>, with_qos: bool) -> bool {
    &&& forall|i: int|
        0 <= i < filters.len() ==> encode_utf8(#[trigger] filters[i]).len() <= MAX_STRING_LENGTH
    &&& with_qos ==> filters.len() <= qos.len()
}

/// The result of a read that comes after `filters`, `qos` and `taken` bytes
/// were read already.
pub open spec fn spec_after(
    filters: Seq<Seq<char>>,
    qos: Seq<u8>,
    taken: nat,
    read: Result<(Seq<Seq<char>>, Seq<u8>, nat), PacketError>,
) -> Result<(Seq<Seq<char>>, Seq<u8>, nat), PacketError> {
    match read {
        Err(e) => Err(e),
        Ok((more_filters, more_qos, n)) => Ok((filters + more_filters, qos + more_qos, taken + n)),
    }
}

/// What reading topic filters makes of `input` where `budget` bytes of the
/// packet are left: filter after filter until the budget is used up. A
/// filter that runs past the budget is an error.
pub open spec fn spec_read_entries(input: Seq<u8>, budget: nat, with_qos: bool) -> Result<
    (Seq<Seq<char>>, Seq<u8>, nat),
    PacketError,
>
    decreases budget,
    via spec_read_entries_decreases
{
    if budget == 0 {
        Ok((Seq::empty(), Seq::empty(), 0))
    } else {
        match spec_read_utf8_string(input) {
            Err(e) => Err(e),
            Ok((text, n)) => {
                let size = if with_qos {
                    n + 1
                } else {
                    n
                };
                if input.len() < size {
                    Err(PacketError::UnexpectedEof)
                } else if budget < size {
                    Err(PacketError::InvalidRemainingLength)
                } else {
                    spec_after(
                        seq![text],
                        spec_qos_byte(with_qos, input, n as int),
                        size as nat,
                        spec_read_entries(input.skip(size as int), (budget - size) as nat, with_qos),
                    )
                }
            },
        }
    }
}

#[via_fn]
proof fn spec_read_entries_decreases(input: Seq<u8>, budget: nat, with_qos: bool) {
    reveal(spec_read_utf8_string);
}

/// Reads that come one after the other add up.
pub proof fn lemma_after_after(
    filters: Seq<Seq<char>>,
    qos: Seq<u8>,
    taken: nat,
    more_filters: Seq<Seq<char>>,
    more_qos: Seq<u8>,
    more_taken: nat,
    read: Result<(Seq<Seq<char>>, Seq<u8>, nat), PacketError>,
)
    ensures
        spec_after(filters, qos, taken, spec_after(more_filters, more_qos, more_taken, read))
            == spec_after(filters + more_filters, qos + more_qos, taken + more_taken, read),
{
    match read {
        Err(e) => {},
        Ok((f, q, n)) => {
            assert(filters + (more_filters + f) =~= (filters + more_filters) + f);
            assert(qos + (more_qos + q) =~= (qos + more_qos) + q);
        },
    }
}

/// Reads the topic filters that start at `input[at]` and fill `budget`
/// bytes; hands back the filters, their qualities of service and the place
/// where they end.
pub fn parse_entries(input: &[u8], at: usize, budget: usize, with_qos: bool) -> (r: Result<
    (Vec<String>, Vec<u8>, usize),
    PacketError,
>)
    requires
        at <= input.len(),
    ensures
        match spec_read_entries(input@.skip(at as int), budget as nat, with_qos) {
            Ok((filters, qos, n)) => {
                &&& r is Ok
                &&& spec_texts(r->Ok_0.0@) == filters
                &&& r->Ok_0.1@ == qos
                &&& r->Ok_0.2 == at + n
                &&& at + n <= input.len()
                &&& n == budget
            },
            Err(e) => r == Err::<(Vec<String>, Vec<u8>, usize), PacketError>(e),
        },
{
    let ghost whole = spec_read_entries(input@.skip(at as int), budget as nat, with_qos);
    let mut filters: Vec<String> = Vec::new();
    let mut qos: Vec<u8> = Vec::new();
    let mut position = at;
    let mut left = budget;
    proof {
        assert(spec_texts(filters@) =~= Seq::<Seq<char>>::empty());
        let read = spec_read_entries(input@.skip(position as int), left as nat, with_qos);
        match read {
            Err(e) => {},
            Ok((f, q, n)) => {
                assert(Seq::<Seq<char>>::empty() + f =~= f);
                assert(Seq::<u8>::empty() + q =~= q);
            },
        }
    }
    while left > 0
        invariant
            at <= position <= input.len(),
            position - at + left == budget,
            whole == spec_read_entries(input@.skip(at as int), budget as nat, with_qos),
            whole == spec_after(
                spec_texts(filters@),
                qos@,
                (position - at) as nat,
                spec_read_entries(input@.skip(position as int), left as nat, with_qos),
            ),
        decreases left,
    {
        let ghost here = input@.skip(position as int);
        let ghost before_filters = spec_texts(filters@);
        let ghost before_qos = qos@;
        let (text, after_text) = match parse_utf8_string(input, position) {
            Ok(found) => found,
            Err(e) => { return Err(e); },
        };
        let ghost n = (after_text - position) as nat;
        let mut end = after_text;
        if with_qos {
            if input.len() - after_text < 1 {
                return Err(PacketError::UnexpectedEof);
            }
            qos.push(input[after_text]);
            end = after_text + 1;
        }
        let size = end - position;
        if left < size {
            return Err(PacketError::InvalidRemainingLength);
        }
        proof {
            assert(here.skip(size as int) =~= input@.skip(end as int));
            assert(with_qos ==> here[n as int] == input@[after_text as int]);
            lemma_after_after(
                before_filters,
                before_qos,
                (position - at) as nat,
                seq![text@],
                spec_qos_byte(with_qos, here, n as int),
                size as nat,
                spec_read_entries(input@.skip(end as int), (left - size) as nat, with_qos),
            );
            assert(before_filters + seq![text@] =~= spec_texts(filters@.push(text)));
            assert(before_qos + spec_qos_byte(with_qos, here, n as int) =~= qos@);
        }
        filters.push(text);
        position = end;
        left = left - size;
    }
    proof {
        assert(spec_texts(filters@) + Seq::<Seq<char>>::empty() =~= spec_texts(filters@));
        assert(qos@ + Seq::<u8>::empty() =~= qos@);
    }
    Ok((filters, qos, position))
}

/// Appends the topic filters to `body`, each followed by its quality of
/// service where `with_qos` holds. Says whether they could be written;
/// where not, `body` is left as it was.
pub fn write_entries(body: &mut Vec<u8>, filters: &Vec<String>, qos: &Vec<u8>, with_qos: bool) -> (r:
    bool)
    ensures
        r == spec_entries_encodable(spec_texts(filters@), qos@, with_qos),
        r ==> final(body)@ == old(body)@ + spec_entries_from(
            spec_texts(filters@),
            qos@,
            with_qos,
            0,
        ),
        !r ==> final(body)@ == old(body)@,
{
    let ghost texts = spec_texts(filters@);
    if with_qos && qos.len() < filters.len() {
        return false;
    }
    let start = body.len();
    let ghost mut written: Seq<u8> = Seq::empty();
    let mut i: usize = 0;
    assert(body@ =~= old(body)@ + written);
    while i < filters.len()
        invariant
            i <= filters.len(),
            texts == spec_texts(filters@),
            with_qos ==> filters.len() <= qos.len(),
            start == old(body)@.len(),
            body@ == old(body)@ + written,
            written + spec_entries_from(texts, qos@, with_qos, i as nat) == spec_entries_from(
                texts,
                qos@,
                with_qos,
                0,
            ),
            forall|j: int| 0 <= j < i ==> encode_utf8(#[trigger] texts[j]).len() <= MAX_STRING_LENGTH,
        decreases filters.len() - i,
    {
        let filter = filters[i].as_str();
        assert(filter@ == texts[i as int]);
        if byte_len(filter) > MAX_STRING_LENGTH {
            body.truncate(start);
            assert(body@ =~= old(body)@);
            return false;
        }
        write_utf8_string(body, filter);
        if with_qos {
            body.push(qos[i]);
        }
        proof {
            let entry = spec_utf8_field(texts[i as int]) + spec_qos_byte(with_qos, qos@, i as int);
            assert(body@ =~= old(body)@ + (written + entry));
            assert((written + entry) + spec_entries_from(texts, qos@, with_qos, (i + 1) as nat)
                =~= written + spec_entries_from(texts, qos@, with_qos, i as nat));
            written = written + entry;
        }
        i += 1;
    }
    proof {
        assert(written + Seq::<u8>::empty() =~= written);
    }
    true
}

/// The count of the bytes that the topic filters take on the wire.
pub fn entries_length(filters: &Vec<String>, qos: &Vec<u8>, with_qos: bool) -> (n: usize)
    requires
        spec_entries_from(spec_texts(filters@), qos@, with_qos, 0).len() <= u32::MAX,
    ensures
        n == spec_entries_from(spec_texts(filters@), qos@, with_qos, 0).len(),
{
    let ghost texts = spec_texts(filters@);
    let mut length: usize = 0;
    let mut i: usize = 0;
    while i < filters.len()
        invariant
            i <= filters.len(),
            texts == spec_texts(filters@),
            length + spec_entries_from(texts, qos@, with_qos, i as nat).len() == spec_entries_from(
                texts,
                qos@,
                with_qos,
                0,
            ).len(),
            spec_entries_from(texts, qos@, with_qos, 0).len() <= u32::MAX,
        decreases filters.len() - i,
    {
        let filter = filters[i].as_str();
        assert(filter@ == texts[i as int]);
        let size = byte_len(filter);
        length = length + 2 + size;
        if with_qos {
            length = length + 1;
        }
        i += 1;
    }
    length
}

/// Topic filters that were written are read back as they were, whatever
/// follows them, where the budget is the count of their bytes.
pub proof fn lemma_entries_round_trip(
    filters: Seq<Seq<char>>,
    qos: Seq<u8>,
    with_qos: bool,
    i: nat,
    rest: Seq<u8>,
)
    requires
        i <= filters.len(),
        spec_entries_encodable(filters, qos, with_qos),
        with_qos ==> filters.len() == qos.len(),
        !with_qos ==> qos.len() == 0,
    ensures
        spec_read_entries(
            spec_entries_from(filters, qos, with_qos, i) + rest,
            spec_entries_from(filters, qos, with_qos, i).len(),
            with_qos,
        ) == Ok::<(Seq<Seq<char>>, Seq<u8>, nat), PacketError>(
            (
                filters.skip(i as int),
                if with_qos {
                    qos.skip(i as int)
                } else {
                    qos
                },
                spec_entries_from(filters, qos, with_qos, i).len(),
            ),
        ),
    decreases filters.len() - i,
{
    let entries = spec_entries_from(filters, qos, with_qos, i);
    let input = entries + rest;
    if i >= filters.len() {
        assert(filters.skip(i as int) =~= Seq::<Seq<char>>::empty());
        if with_qos {
            assert(qos.skip(i as int) =~= Seq::<u8>::empty());
        } else {
            assert(qos =~= Seq::<u8>::empty());
        }
    } else {
        let field = spec_utf8_field(filters[i as int]);
        let byte = spec_qos_byte(with_qos, qos, i as int);
        let later = spec_entries_from(filters, qos, with_qos, i + 1);
        assert(input =~= field + (byte + later + rest));
        lemma_utf8_field_round_trip(filters[i as int], byte + later + rest);
        let n = field.len();
        let size = n + byte.len();
        assert(input.skip(size as int) =~= later + rest);
        assert(with_qos ==> input[n as int] == byte[0]);
        lemma_entries_round_trip(filters, qos, with_qos, i + 1, rest);
        assert(seq![filters[i as int]] + filters.skip(i + 1 as int) =~= filters.skip(i as int));
        if with_qos {
            assert(spec_qos_byte(with_qos, input, n as int) + qos.skip(i + 1 as int) =~= qos.skip(
                i as int,
            ));
        } else {
            assert(spec_qos_byte(with_qos, input, n as int) + qos =~= qos);
        }
    }
}

} // verus!
