//! Hashes of texts.

use crate::text;
use crate::text_laws;
use std::collections::hash_map::DefaultHasher;
use std::hash::Hasher;
use vstd::prelude::*;
use vstd::std_specs::hash::DefaultHasherAdditionalSpecFns;

verus! {

/// A hash of some content.
pub type HashType = u64;

/// The bytes written for the texts: those of each text, and a byte that no text holds.
pub open spec fn written(parts: Seq<Seq<char>>) -> Seq<Seq<u8>>
    decreases parts.len(),
{
    if parts.len() == 0 {
        Seq::empty()
    } else {
        written(parts.drop_last()).push(vstd::utf8::encode_utf8(parts.last())).push(seq![0xffu8])
    }
}

/// The hash of a list of texts.
pub open spec fn hash_of(parts: Seq<Seq<char>>) -> HashType {
    DefaultHasher::spec_finish(written(parts))
}

/// The hash of a list of texts.
pub fn hash_texts(parts: &Vec<String>) -> (r: HashType)
    ensures
        r == hash_of(text::texts(parts@)),
{
    let mut hasher = DefaultHasher::new();
    let ghost all = text::texts(parts@);
    for i in 0..parts.len()
        invariant
            all == text::texts(parts@),
            hasher@ == written(all.take(i as int)),
    {
        assert(all.take(i + 1).drop_last() =~= all.take(i as int));
        hasher.write(parts[i].as_str().as_bytes());
        hasher.write(&[0xffu8]);
        assert(hasher@.last() =~= seq![0xffu8]);
        assert(hasher@ =~= written(all.take(i + 1)));
    }
    assert(all.take(all.len() as int) =~= all);
    hasher.finish()
}

/// The hash of one text.
pub fn hash_text(s: &str) -> (r: HashType)
    ensures
        r == hash_of(seq![s@]),
{
    let mut parts: Vec<String> = Vec::new();
    parts.push(s.to_owned());
    assert(text::texts(parts@) =~= seq![s@]);
    hash_texts(&parts)
}

/// A list with its length before it.
pub open spec fn list_parts(list: Seq<Seq<char>>) -> Seq<Seq<char>> {
    seq![text::decimal_of(list.len())] + list
}

/// Appends a list with its length before it.
pub fn append_list(out: &mut Vec<String>, list: &Vec<String>)
    ensures
        text::texts(final(out)@) == text::texts(old(out)@) + list_parts(text::texts(list@)),
{
    let ghost start = text::texts(out@);
    let ghost all = text::texts(list@);
    text::push_text(out, text::decimal(list.len()));
    assert(text::texts(out@) =~= start + (seq![text::decimal_of(all.len())] + all.take(0)));
    for i in 0..list.len()
        invariant
            all == text::texts(list@),
            text::texts(out@) == start + (seq![text::decimal_of(all.len())] + all.take(i as int)),
    {
        text::push_text(out, list[i].clone());
        assert(text::texts(out@) =~= start + (seq![text::decimal_of(all.len())] + all.take(i + 1)));
    }
    assert(all.take(all.len() as int) =~= all);
}

/// The hash of some bytes.
pub open spec fn hash_of_bytes(bytes: Seq<u8>) -> HashType {
    DefaultHasher::spec_finish(seq![bytes])
}

/// The hash of some bytes.
pub fn hash_bytes(bytes: &Vec<u8>) -> (r: HashType)
    ensures
        r == hash_of_bytes(bytes@),
{
    let mut hasher = DefaultHasher::new();
    hasher.write(bytes.as_slice());
    assert(hasher@ =~= seq![bytes@]);
    hasher.finish()
}

/// Two hashes are those of two runs of bytes that are the same exactly where `same` holds.
pub open spec fn rest_on_same(x: HashType, y: HashType, same: bool) -> bool {
    exists|p: Seq<Seq<u8>>, q: Seq<Seq<u8>>|
        x == #[trigger] DefaultHasher::spec_finish(p) && y == #[trigger] DefaultHasher::spec_finish(
            q,
        ) && (p == q <==> same)
}

pub proof fn lemma_written(a: Seq<Seq<char>>, b: Seq<Seq<char>>)
    ensures
        written(a) == written(b) <==> a == b,
    decreases a.len(),
{
    lemma_written_len(a);
    lemma_written_len(b);
    if written(a) == written(b) {
        if a.len() > 0 {
            let x = written(a);
            let y = written(b);
            let n = x.len() as int;
            lemma_written_len(a.drop_last());
            lemma_written_len(b.drop_last());
            assert(x.take(n - 2) =~= written(a.drop_last()));
            assert(y.take(n - 2) =~= written(b.drop_last()));
            lemma_written(a.drop_last(), b.drop_last());
            assert(x[n - 2] == vstd::utf8::encode_utf8(a.last()));
            assert(y[n - 2] == vstd::utf8::encode_utf8(b.last()));
            vstd::utf8::encode_utf8_decode_utf8(a.last());
            vstd::utf8::encode_utf8_decode_utf8(b.last());
            assert(a =~= a.drop_last().push(a.last()));
            assert(b =~= b.drop_last().push(b.last()));
        } else {
            assert(a =~= b);
        }
    }
}

proof fn lemma_written_len(a: Seq<Seq<char>>)
    ensures
        written(a).len() == 2 * a.len(),
    decreases a.len(),
{
    if a.len() > 0 {
        lemma_written_len(a.drop_last());
    }
}

pub proof fn lemma_rest_on_same(a: Seq<Seq<char>>, b: Seq<Seq<char>>)
    ensures
        rest_on_same(hash_of(a), hash_of(b), a == b),
{
    lemma_written(a, b);
    assert(hash_of(a) == DefaultHasher::spec_finish(written(a)));
    assert(hash_of(b) == DefaultHasher::spec_finish(written(b)));
}

/// Lists of texts are hashed from the same bytes only where they are the same list.
pub proof fn law_hashes_tell_lists_apart(a: &Vec<String>, b: &Vec<String>, x: HashType, y: HashType)
    requires
        call_ensures(hash_texts, (a,), x),
        call_ensures(hash_texts, (b,), y),
    ensures
        rest_on_same(x, y, text::texts(a@) == text::texts(b@)),
{
    lemma_rest_on_same(text::texts(a@), text::texts(b@));
}

/// A text is hashed from the same bytes only as the same text.
pub proof fn law_hashes_tell_texts_apart(a: &str, b: &str, x: HashType, y: HashType)
    requires
        call_ensures(hash_text, (a,), x),
        call_ensures(hash_text, (b,), y),
    ensures
        rest_on_same(x, y, a@ == b@),
{
    lemma_rest_on_same(seq![a@], seq![b@]);
    if seq![a@] == seq![b@] {
        assert(seq![a@][0] == seq![b@][0]);
    }
}

/// Bytes are hashed as they are.
pub proof fn law_hashes_tell_bytes_apart(a: &Vec<u8>, b: &Vec<u8>, x: HashType, y: HashType)
    requires
        call_ensures(hash_bytes, (a,), x),
        call_ensures(hash_bytes, (b,), y),
    ensures
        rest_on_same(x, y, a@ == b@),
{
    lemma_bytes_apart(a@, b@);
}

/// A list with its length before it ends where it ends, whatever follows it.
pub proof fn lemma_list_parts(
    a: Seq<Seq<char>>,
    s: Seq<Seq<char>>,
    b: Seq<Seq<char>>,
    t: Seq<Seq<char>>,
)
    ensures
        list_parts(a) + s == list_parts(b) + t <==> a == b && s == t,
{
    let x = list_parts(a) + s;
    let y = list_parts(b) + t;
    if x == y {
        assert(x[0] == text::decimal_of(a.len()) && y[0] == text::decimal_of(b.len()));
        text_laws::law_decimal_tells_numbers_apart(a.len(), b.len());
        assert(a =~= x.subrange(1, 1int + a.len()));
        assert(b =~= y.subrange(1, 1int + b.len()));
        assert(s =~= x.skip(1int + a.len()));
        assert(t =~= y.skip(1int + b.len()));
    }
}

pub proof fn lemma_bytes_apart(a: Seq<u8>, b: Seq<u8>)
    ensures
        rest_on_same(hash_of_bytes(a), hash_of_bytes(b), a == b),
{
    if seq![a] == seq![b] {
        assert(seq![a][0] == seq![b][0]);
    }
    assert(hash_of_bytes(a) == DefaultHasher::spec_finish(seq![a]));
    assert(hash_of_bytes(b) == DefaultHasher::spec_finish(seq![b]));
}

} // verus!
