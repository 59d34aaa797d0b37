//! The body of a request: where its parts come from, and in which pieces it is
//! sent.
use crate::client::ClientType;
use crate::options::Options;
use crate::text;
use vstd::prelude::*;

verus! {

/// Where a part of a body comes from.
#[derive(Clone, Debug)]
pub enum BodySource {
    /// The part itself.
    Text(String),
    /// The path of a file that holds it.
    File(String),
}

/// Whether a part is given as the path of a file.
pub open spec fn names_file(s: Seq<char>) -> bool {
    s.len() > 0 && s[0] == '@'
}

/// Whether a part comes from where `s` says.
pub open spec fn comes_from(b: BodySource, s: Seq<char>) -> bool {
    match b {
        BodySource::File(path) => names_file(s) && path@ == s.drop_first(),
        BodySource::Text(t) => !names_file(s) && t@ == s,
    }
}

/// Where a part of a body comes from: `@path` names a file.
pub fn body_source(s: &str) -> (b: BodySource)
    ensures
        comes_from(b, s@),
{
    let v = text::chars_of(s);
    if v.len() > 0 && v[0] == '@' {
        let path: &[char] = &v.as_slice()[1..v.len()];
        assert(path@ == s@.drop_first());
        BodySource::File(text::string_of(path))
    } else {
        BodySource::Text(s.to_string())
    }
}

/// Where the parts of the body come from.
pub fn body_sources(opts: &Options) -> (list: Vec<BodySource>)
    ensures
        list@.len() == opts.body@.len(),
        forall|i: int| 0 <= i < list@.len() ==> comes_from(#[trigger] list@[i], opts.body@[i]@),
{
    let mut list: Vec<BodySource> = Vec::new();
    let mut i: usize = 0;
    while i < opts.body.len()
        invariant
            i <= opts.body.len(),
            list@.len() == i,
            forall|j: int| 0 <= j < i ==> comes_from(#[trigger] list@[j], opts.body@[j]@),
        decreases opts.body.len() - i,
    {
        list.push(body_source(opts.body[i].as_str()));
        i += 1;
    }
    list
}

/// The bytes of parts.
pub open spec fn bytes_of(parts: Seq<Vec<u8>>) -> Seq<Seq<u8>> {
    Seq::new(parts.len(), |i: int| parts[i]@)
}

/// Parts, one behind the other.
pub open spec fn joined(parts: Seq<Seq<u8>>) -> Seq<u8>
    decreases parts.len(),
{
    if parts.len() == 0 {
        Seq::empty()
    } else {
        joined(parts.drop_last()) + parts.last()
    }
}

/// The pieces in which a client sends the parts of a body: each by itself, all in
/// one piece, or the first alone.
pub open spec fn pieces_of(client: ClientType, parts: Seq<Seq<u8>>) -> Seq<Seq<u8>> {
    match client {
        ClientType::HyperChunked => parts,
        ClientType::HyperRt1 | ClientType::TokioUring => seq![joined(parts)],
        _ => seq![
            if parts.len() > 0 {
                parts[0]
            } else {
                Seq::empty()
            },
        ],
    }
}

/// Joins parts.
pub fn full_body(parts: Vec<Vec<u8>>) -> (b: Vec<u8>)
    ensures
        b@ == joined(bytes_of(parts@)),
{
    let mut b: Vec<u8> = Vec::new();
    let mut i: usize = 0;
    assert(bytes_of(parts@).take(0).len() == 0);
    while i < parts.len()
        invariant
            i <= parts.len(),
            b@ == joined(bytes_of(parts@).take(i as int)),
        decreases parts.len() - i,
    {
        b.extend_from_slice(parts[i].as_slice());
        assert(bytes_of(parts@).take(i + 1).drop_last() == bytes_of(parts@).take(i as int));
        i += 1;
    }
    assert(bytes_of(parts@).take(parts@.len() as int) == bytes_of(parts@));
    b
}

/// The pieces in which a client sends the parts of a body.
pub fn request_body(client: ClientType, parts: Vec<Vec<u8>>) -> (pieces: Vec<Vec<u8>>)
    ensures
        bytes_of(pieces@) == pieces_of(client, bytes_of(parts@)),
{
    let mut pieces: Vec<Vec<u8>> = Vec::new();
    match client {
        ClientType::HyperChunked => {
            return parts;
        },
        ClientType::HyperRt1 | ClientType::TokioUring => {
            pieces.push(full_body(parts));
        },
        _ => {
            if parts.len() > 0 {
                let mut rest = parts;
                let first = rest.remove(0);
                pieces.push(first);
            } else {
                let none: Vec<u8> = Vec::new();
                pieces.push(none);
            }
        },
    }
    assert(bytes_of(pieces@) =~~= pieces_of(client, bytes_of(parts@)));
    pieces
}

/// A body that is given in one part is sent whole, and in one piece, by every
/// client.
pub proof fn law_one_part_is_sent_whole(client: ClientType, part: Seq<u8>)
    ensures
        pieces_of(client, seq![part]) == seq![part],
{
    reveal_with_fuel(joined, 2);
    assert(seq![part].drop_last() == Seq::<Seq<u8>>::empty());
    assert(joined(seq![part]) == part);
}

/// The clients that take more than one part send all of them.
pub proof fn law_no_part_is_lost(client: ClientType, parts: Seq<Seq<u8>>)
    requires
        client is HyperChunked || client is HyperRt1 || client is TokioUring,
    ensures
        joined(pieces_of(client, parts)) == joined(parts),
{
    if !(client is HyperChunked) {
        law_one_part_is_sent_whole(client, joined(parts));
        reveal_with_fuel(joined, 2);
        let one = seq![joined(parts)];
        assert(one.drop_last() == Seq::<Seq<u8>>::empty());
        assert(joined(one) == joined(parts));
    }
}

/// Parts that are joined stand one behind the other in their order.
pub proof fn law_parts_stand_in_order(a: Seq<Seq<u8>>, b: Seq<Seq<u8>>, part: Seq<u8>)
    ensures
        joined(a + b) == joined(a) + joined(b),
        joined(seq![part]) == part,
    decreases b.len(),
{
    reveal_with_fuel(joined, 2);
    let one = seq![part];
    assert(one.drop_last() == Seq::<Seq<u8>>::empty());
    assert(joined(one) == part);
    if b.len() == 0 {
        assert(a + b == a);
        assert(joined(a) + Seq::<u8>::empty() == joined(a));
    } else {
        law_parts_stand_in_order(a, b.drop_last(), part);
        assert((a + b).drop_last() == a + b.drop_last());
        assert((a + b).last() == b.last());
        assert(joined(a + b) == joined(a) + joined(b));
    }
}

/// The client that sends chunks sends each part by itself. All others send one piece: two
/// of them all parts, and the rest the first part, or nothing where there is none.
pub proof fn law_pieces_of_a_body(client: ClientType, first: Seq<u8>, more: Seq<Seq<u8>>)
    ensures
        client == ClientType::HyperChunked ==> pieces_of(client, seq![first] + more) == seq![first] + more,
        client != ClientType::HyperChunked ==> pieces_of(client, seq![first] + more).len() == 1,
        client == ClientType::HyperRt1 || client == ClientType::TokioUring ==> pieces_of(
            client,
            seq![first] + more,
        )[0] == first + joined(more),
        client != ClientType::HyperChunked && client != ClientType::HyperRt1 && client
            != ClientType::TokioUring ==> pieces_of(client, seq![first] + more)[0] == first,
        client != ClientType::HyperChunked ==> pieces_of(client, Seq::empty()).len() == 1 && pieces_of(
            client,
            Seq::empty(),
        )[0].len() == 0,
{
    law_parts_stand_in_order(seq![first], more, first);
    assert((seq![first] + more)[0] == first);
}

/// A part that starts with `@` is in the file whose path follows. Any other part is what
/// it is.
pub proof fn law_part_can_be_in_a_file(b: BodySource, path: Seq<char>, s: Seq<char>)
    ensures
        comes_from(b, seq!['@'] + path) ==> (b matches BodySource::File(p) && p@ == path),
        comes_from(b, s) && (s.len() == 0 || s[0] != '@') ==> (b matches BodySource::Text(t) && t@ == s),
{
    assert((seq!['@'] + path).drop_first() == path);
}

} // verus!
