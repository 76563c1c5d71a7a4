//! The file that keeps the vectors: two numbers, the chunk IDs, then the vectors.
//!
//! All numbers are little-endian and take four bytes: how many vectors there are, how many
//! components each has, then per ID its length in bytes and its UTF-8 bytes, then the bit patterns
//! of all components.
use crate::api::webapi::push_bytes;
use crate::text::concat4;
use crate::text::decimal;
use crate::text::decimal_text;
use crate::text::texts;
use vstd::bytes::spec_u32_from_le_bytes;
use vstd::bytes::spec_u32_to_le_bytes;
use vstd::bytes::u32_from_le_bytes;
use vstd::bytes::u32_to_le_bytes;
use vstd::prelude::*;
use vstd::slice::slice_subrange;
use vstd::utf8::decode_utf8;
use vstd::utf8::encode_utf8;
use vstd::utf8::valid_utf8;

verus! {

/// The components of some vectors.
pub open spec fn vector_views(v: Seq<Vec<u32>>) -> Seq<Seq<u32>> {
    v.map_values(|x: Vec<u32>| x@)
}

/// The bytes of some IDs, each behind its length.
pub open spec fn id_bytes(ids: Seq<Seq<char>>) -> Seq<u8>
    decreases ids.len(),
{
    if ids.len() == 0 {
        Seq::empty()
    } else {
        let b = encode_utf8(ids[0]);
        spec_u32_to_le_bytes(b.len() as u32) + b + id_bytes(ids.drop_first())
    }
}

/// The bytes of some components.
pub open spec fn component_bytes(v: Seq<u32>) -> Seq<u8>
    decreases v.len(),
{
    if v.len() == 0 {
        Seq::empty()
    } else {
        spec_u32_to_le_bytes(v[0]) + component_bytes(v.drop_first())
    }
}

/// The bytes of some vectors.
pub open spec fn vector_bytes(v: Seq<Seq<u32>>) -> Seq<u8>
    decreases v.len(),
{
    if v.len() == 0 {
        Seq::empty()
    } else {
        component_bytes(v[0]) + vector_bytes(v.drop_first())
    }
}

/// The file for some vectors and their IDs.
pub open spec fn vectors_file(ids: Seq<Seq<char>>, vectors: Seq<Seq<u32>>, dim: nat) -> Seq<u8> {
    spec_u32_to_le_bytes(vectors.len() as u32) + spec_u32_to_le_bytes(dim as u32) + id_bytes(ids)
        + vector_bytes(vectors)
}

/// Why a file of vectors could not be read.
#[derive(Debug)]
pub enum VectorsFault {
    /// The file ends too early.
    Truncated,
    /// A chunk ID is not UTF-8, with what the decoder says of it.
    NotText(String),
    /// The vectors have this many components instead.
    Dimension(u32),
}

/// A fault as the text and the number it holds.
pub enum VectorsFaultView {
    Truncated,
    NotText(Seq<char>),
    Dimension(u32),
}

impl View for VectorsFault {
    type V = VectorsFaultView;

    open spec fn view(&self) -> VectorsFaultView {
        match self {
            VectorsFault::Truncated => VectorsFaultView::Truncated,
            VectorsFault::NotText(cause) => VectorsFaultView::NotText(cause@),
            VectorsFault::Dimension(found) => VectorsFaultView::Dimension(*found),
        }
    }
}

/// What the error of `String::from_utf8` says of some bytes that are not UTF-8.
pub uninterp spec fn utf8_fault(bytes: Seq<u8>) -> Seq<char>;

/// The number in four bytes at a position.
pub open spec fn number_at(b: Seq<u8>, pos: int) -> Option<u32> {
    if 0 <= pos && pos + 4 <= b.len() {
        Some(spec_u32_from_le_bytes(b.subrange(pos, pos + 4)))
    } else {
        None
    }
}

/// The `n` IDs from a position on, and where they end.
pub open spec fn ids_from(b: Seq<u8>, pos: int, n: nat) -> Result<
    (Seq<Seq<char>>, int),
    VectorsFaultView,
>
    decreases n,
{
    if n == 0 {
        Ok((Seq::empty(), pos))
    } else {
        match number_at(b, pos) {
            Some(len) => if pos + 4 + len > b.len() {
                Err(VectorsFaultView::Truncated)
            } else {
                let id = b.subrange(pos + 4, pos + 4 + len);
                if !valid_utf8(id) {
                    Err(VectorsFaultView::NotText(utf8_fault(id)))
                } else {
                    match ids_from(b, pos + 4 + len, (n - 1) as nat) {
                        Ok((rest, end)) => Ok((seq![decode_utf8(id)] + rest, end)),
                        Err(e) => Err(e),
                    }
                }
            },
            None => Err(VectorsFaultView::Truncated),
        }
    }
}

/// The `n` components from a position on.
pub open spec fn components_from(b: Seq<u8>, pos: int, n: nat) -> Result<Seq<u32>, VectorsFaultView>
    decreases n,
{
    if n == 0 {
        Ok(Seq::empty())
    } else {
        match number_at(b, pos) {
            Some(x) => match components_from(b, pos + 4, (n - 1) as nat) {
                Ok(rest) => Ok(seq![x] + rest),
                Err(e) => Err(e),
            },
            None => Err(VectorsFaultView::Truncated),
        }
    }
}

/// The `n` vectors of `dim` components from a position on.
pub open spec fn vectors_from(b: Seq<u8>, pos: int, n: nat, dim: nat) -> Result<
    Seq<Seq<u32>>,
    VectorsFaultView,
>
    decreases n,
{
    if n == 0 {
        Ok(Seq::empty())
    } else {
        match components_from(b, pos, dim) {
            Ok(v) => match vectors_from(b, pos + 4 * dim, (n - 1) as nat, dim) {
                Ok(rest) => Ok(seq![v] + rest),
                Err(e) => Err(e),
            },
            Err(e) => Err(e),
        }
    }
}

/// What a file of vectors holds: the IDs and the vectors.
pub open spec fn read_file(b: Seq<u8>, dim: nat) -> Result<
    (Seq<Seq<char>>, Seq<Seq<u32>>),
    VectorsFaultView,
> {
    match (number_at(b, 0), number_at(b, 4)) {
        (Some(count), Some(found)) => if found != dim {
            Err(VectorsFaultView::Dimension(found))
        } else {
            match ids_from(b, 8, count as nat) {
                Ok((ids, end)) => match vectors_from(b, end, count as nat, dim) {
                    Ok(vectors) => Ok((ids, vectors)),
                    Err(e) => Err(e),
                },
                Err(e) => Err(e),
            }
        },
        _ => Err(VectorsFaultView::Truncated),
    }
}

/// Writes the vectors and their IDs as the bytes of a file.
pub fn save_vectors(vectors: &[Vec<u32>], chunk_ids: &[String], dim: usize) -> (r: Vec<u8>)
    ensures
        r@ == vectors_file(texts(chunk_ids@), vector_views(vectors@), dim as nat),
{
    let ghost ids = texts(chunk_ids@);
    let ghost vs = vector_views(vectors@);
    let count: u32 = #[verifier::truncate]
    (vectors.len() as u32);
    let width: u32 = #[verifier::truncate]
    (dim as u32);
    let mut out: Vec<u8> = u32_to_le_bytes(count);
    push_bytes(&mut out, u32_to_le_bytes(width).as_slice());
    let ghost head = out@;
    let mut i: usize = 0;
    assert(ids.skip(0) =~= ids);
    while i < chunk_ids.len()
        invariant
            i <= chunk_ids.len(),
            ids == texts(chunk_ids@),
            out@ + id_bytes(ids.skip(i as int)) == head + id_bytes(ids),
        decreases chunk_ids.len() - i,
    {
        let ghost before = out@;
        let ghost rest = ids.skip(i as int);
        assert(rest[0] == chunk_ids@[i as int]@);
        assert(rest.drop_first() =~= ids.skip(i as int + 1));
        let bytes = chunk_ids[i].as_str().as_bytes();
        let len: u32 = #[verifier::truncate]
        (bytes.len() as u32);
        push_bytes(&mut out, u32_to_le_bytes(len).as_slice());
        push_bytes(&mut out, bytes);
        assert(out@ + id_bytes(ids.skip(i as int + 1)) =~= before + id_bytes(rest));
        i += 1;
    }
    assert(ids.skip(ids.len() as int) =~= Seq::empty());
    assert(out@ + id_bytes(Seq::<Seq<char>>::empty()) =~= out@);
    let ghost middle = out@;
    let mut j: usize = 0;
    assert(vs.skip(0) =~= vs);
    while j < vectors.len()
        invariant
            j <= vectors.len(),
            vs == vector_views(vectors@),
            out@ + vector_bytes(vs.skip(j as int)) == middle + vector_bytes(vs),
        decreases vectors.len() - j,
    {
        let ghost before = out@;
        let ghost rest = vs.skip(j as int);
        assert(rest[0] == vectors@[j as int]@);
        assert(rest.drop_first() =~= vs.skip(j as int + 1));
        push_components(&mut out, &vectors[j]);
        assert(out@ + vector_bytes(vs.skip(j as int + 1)) =~= before + vector_bytes(rest));
        j += 1;
    }
    assert(vs.skip(vs.len() as int) =~= Seq::empty());
    assert(out@ + vector_bytes(Seq::<Seq<u32>>::empty()) =~= out@);
    out
}

fn push_components(out: &mut Vec<u8>, v: &[u32])
    ensures
        final(out)@ == old(out)@ + component_bytes(v@),
{
    let ghost start = out@;
    let mut k: usize = 0;
    assert(v@.skip(0) =~= v@);
    while k < v.len()
        invariant
            k <= v.len(),
            out@ + component_bytes(v@.skip(k as int)) == start + component_bytes(v@),
        decreases v.len() - k,
    {
        let ghost before = out@;
        let ghost rest = v@.skip(k as int);
        assert(rest.drop_first() =~= v@.skip(k as int + 1));
        push_bytes(out, u32_to_le_bytes(v[k]).as_slice());
        assert(out@ + component_bytes(v@.skip(k as int + 1)) =~= before + component_bytes(rest));
        k += 1;
    }
    assert(v@.skip(v@.len() as int) =~= Seq::empty());
    assert(out@ + component_bytes(Seq::<u32>::empty()) =~= out@);
}

/// `String::from_utf8`: the text that some bytes encode, where they are UTF-8; else an error, whose
/// text is a function of the bytes, named `utf8_fault`.
#[verifier::external_body]
fn text_from_utf8(bytes: Vec<u8>) -> (r: Result<String, String>)
    ensures
        match r {
            Ok(s) => valid_utf8(bytes@) && s@ == decode_utf8(bytes@),
            Err(e) => !valid_utf8(bytes@) && e@ == utf8_fault(bytes@),
        },
{
    match String::from_utf8(bytes) {
        Ok(s) => Ok(s),
        Err(e) => Err(e.to_string()),
    }
}

fn read_number(b: &[u8], pos: usize) -> (r: Option<u32>)
    requires
        pos <= b.len(),
    ensures
        r == number_at(b@, pos as int),
        r is Some ==> pos + 4 <= b.len(),
{
    if b.len() - pos < 4 {
        return None;
    }
    let four = slice_subrange(b, pos, pos + 4);
    Some(u32_from_le_bytes(four))
}

/// The error for a file of vectors that could not be read.
#[derive(Debug)]
pub struct VectorsError {
    pub fault: VectorsFault,
    /// How many components were expected.
    pub expected: usize,
}

impl VectorsError {
    /// The message shown to the user.
    pub fn message(&self) -> (r: String)
        ensures
            r@ == match self.fault@ {
                VectorsFaultView::Truncated => "failed to fill whole buffer"@,
                VectorsFaultView::NotText(cause) => cause,
                VectorsFaultView::Dimension(found) => "Vector dimension mismatch: file has "@
                    + decimal(found as nat) + ", expected "@ + decimal(self.expected as nat),
            },
    {
        match &self.fault {
            VectorsFault::Truncated => "failed to fill whole buffer".to_string(),
            VectorsFault::NotText(cause) => cause.clone(),
            VectorsFault::Dimension(found) => concat4(
                "Vector dimension mismatch: file has ",
                decimal_text(*found as u64).as_str(),
                ", expected ",
                decimal_text(self.expected as u64).as_str(),
            ),
        }
    }
}

/// The vectors and the IDs read from a file.
pub type LoadedVectors = (Vec<Vec<u32>>, Vec<String>);

/// The view of a file that was read.
pub open spec fn loaded_view(r: Result<LoadedVectors, VectorsError>) -> Result<
    (Seq<Seq<char>>, Seq<Seq<u32>>),
    VectorsFaultView,
> {
    match r {
        Ok((vectors, ids)) => Ok((texts(ids@), vector_views(vectors@))),
        Err(e) => Err(e.fault@),
    }
}

/// What is left to read of the IDs, put behind those already read.
spec fn ids_after(done: Seq<Seq<char>>, b: Seq<u8>, pos: int, n: nat) -> Result<
    (Seq<Seq<char>>, int),
    VectorsFaultView,
> {
    match ids_from(b, pos, n) {
        Ok((rest, end)) => Ok((done + rest, end)),
        Err(e) => Err(e),
    }
}

fn load_ids(b: &[u8], start: usize, count: u32) -> (r: Result<(Vec<String>, usize), VectorsFault>)
    requires
        start <= b.len(),
    ensures
        match r {
            Ok((ids, end)) => end <= b.len() && ids_from(b@, start as int, count as nat) == Ok::<
                (Seq<Seq<char>>, int),
                VectorsFaultView,
            >((texts(ids@), end as int)),
            Err(e) => ids_from(b@, start as int, count as nat) == Err::<
                (Seq<Seq<char>>, int),
                VectorsFaultView,
            >(e@),
        },
{
    let mut ids: Vec<String> = Vec::new();
    let mut pos: usize = start;
    let mut left: u32 = count;
    proof {
        assert(texts(ids@) =~= Seq::empty());
        if let Ok((rest, end)) = ids_from(b@, pos as int, left as nat) {
            assert(texts(ids@) + rest =~= rest);
        }
    }
    while left > 0
        invariant
            pos <= b.len(),
            ids_after(texts(ids@), b@, pos as int, left as nat) == ids_from(
                b@,
                start as int,
                count as nat,
            ),
        decreases left,
    {
        let len: u32 = match read_number(b, pos) {
            Some(n) => n,
            None => {
                return Err(VectorsFault::Truncated);
            },
        };
        if b.len() - pos - 4 < len as usize {
            return Err(VectorsFault::Truncated);
        }
        let end: usize = pos + 4 + len as usize;
        let mut bytes: Vec<u8> = Vec::new();
        push_bytes(&mut bytes, slice_subrange(b, pos + 4, end));
        assert(bytes@ =~= b@.subrange(pos + 4, end as int));
        let id = match text_from_utf8(bytes) {
            Ok(s) => s,
            Err(cause) => {
                return Err(VectorsFault::NotText(cause));
            },
        };
        let ghost before = texts(ids@);
        let ghost view = id@;
        ids.push(id);
        assert(texts(ids@) =~= before.push(view));
        proof {
            if let Ok((rest, e)) = ids_from(b@, end as int, (left - 1) as nat) {
                assert(before + (seq![view] + rest) =~= texts(ids@) + rest);
            }
        }
        pos = end;
        left -= 1;
    }
    assert(texts(ids@) + Seq::<Seq<char>>::empty() =~= texts(ids@));
    Ok((ids, pos))
}

fn load_components(b: &[u8], start: usize, dim: u32) -> (r: Option<Vec<u32>>)
    requires
        start <= b.len(),
    ensures
        match r {
            Some(v) => components_from(b@, start as int, dim as nat) == Ok::<
                Seq<u32>,
                VectorsFaultView,
            >(v@) && start + 4 * dim <= b.len(),
            None => components_from(b@, start as int, dim as nat) == Err::<Seq<u32>, VectorsFaultView>(
                VectorsFaultView::Truncated,
            ),
        },
{
    let mut v: Vec<u32> = Vec::new();
    let mut pos: usize = start;
    let mut left: u32 = dim;
    proof {
        if let Ok(rest) = components_from(b@, pos as int, left as nat) {
            assert(v@ + rest =~= rest);
        }
    }
    while left > 0
        invariant
            pos <= b.len(),
            pos + 4 * left == start + 4 * dim,
            match components_from(b@, pos as int, left as nat) {
                Ok(rest) => components_from(b@, start as int, dim as nat) == Ok::<
                    Seq<u32>,
                    VectorsFaultView,
                >(v@ + rest),
                Err(e) => components_from(b@, start as int, dim as nat) == Err::<
                    Seq<u32>,
                    VectorsFaultView,
                >(e),
            },
        decreases left,
    {
        match read_number(b, pos) {
            Some(x) => {
                let ghost before = v@;
                v.push(x);
                proof {
                    if let Ok(rest) = components_from(b@, pos + 4, (left - 1) as nat) {
                        assert(before + (seq![x] + rest) =~= v@ + rest);
                    }
                }
                pos += 4;
                left -= 1;
            },
            None => {
                return None;
            },
        }
    }
    assert(v@ + Seq::<u32>::empty() =~= v@);
    Some(v)
}

/// Reads the vectors and their IDs from the bytes of a file.
pub fn load_vectors(b: &[u8], expected_dim: usize) -> (r: Result<LoadedVectors, VectorsError>)
    ensures
        loaded_view(r) == read_file(b@, expected_dim as nat),
        r is Err ==> r->Err_0.expected == expected_dim,
{
    let count: u32 = match read_number(b, 0) {
        Some(n) => n,
        None => {
            return Err(VectorsError { fault: VectorsFault::Truncated, expected: expected_dim });
        },
    };
    let dim: u32 = match read_number(b, 4) {
        Some(n) => n,
        None => {
            return Err(VectorsError { fault: VectorsFault::Truncated, expected: expected_dim });
        },
    };
    if dim as usize != expected_dim {
        return Err(
            VectorsError { fault: VectorsFault::Dimension(dim), expected: expected_dim },
        );
    }
    let (ids, start) = match load_ids(b, 8, count) {
        Ok(found) => found,
        Err(fault) => {
            return Err(VectorsError { fault, expected: expected_dim });
        },
    };
    let mut vectors: Vec<Vec<u32>> = Vec::new();
    let mut pos: usize = start;
    let mut left: u32 = count;
    proof {
        assert(vector_views(vectors@) =~= Seq::empty());
        if let Ok(rest) = vectors_from(b@, pos as int, left as nat, dim as nat) {
            assert(vector_views(vectors@) + rest =~= rest);
        }
    }
    while left > 0
        invariant
            pos <= b.len(),
            match vectors_from(b@, pos as int, left as nat, dim as nat) {
                Ok(rest) => vectors_from(b@, start as int, count as nat, dim as nat) == Ok::<
                    Seq<Seq<u32>>,
                    VectorsFaultView,
                >(vector_views(vectors@) + rest),
                Err(e) => vectors_from(b@, start as int, count as nat, dim as nat) == Err::<
                    Seq<Seq<u32>>,
                    VectorsFaultView,
                >(e),
            },
            number_at(b@, 0) == Some(count),
            number_at(b@, 4) == Some(dim),
            dim == expected_dim,
            ids_from(b@, 8, count as nat) == Ok::<(Seq<Seq<char>>, int), VectorsFaultView>(
                (texts(ids@), start as int),
            ),
        decreases left,
    {
        match load_components(b, pos, dim) {
            Some(v) => {
                let ghost before = vector_views(vectors@);
                let ghost view = v@;
                vectors.push(v);
                assert(vector_views(vectors@) =~= before.push(view));
                proof {
                    if let Ok(rest) = vectors_from(
                        b@,
                        pos + 4 * dim,
                        (left - 1) as nat,
                        dim as nat,
                    ) {
                        assert(before + (seq![view] + rest) =~= vector_views(vectors@) + rest);
                    }
                }
                pos = pos + 4 * dim as usize;
                left -= 1;
            },
            None => {
                return Err(
                    VectorsError { fault: VectorsFault::Truncated, expected: expected_dim },
                );
            },
        }
    }
    assert(vector_views(vectors@) + Seq::<Seq<u32>>::empty() =~= vector_views(vectors@));
    Ok((vectors, ids))
}

proof fn lemma_number_at(b: Seq<u8>, pos: int, x: u32)
    requires
        0 <= pos,
        pos + 4 <= b.len(),
        b.subrange(pos, pos + 4) == spec_u32_to_le_bytes(x),
    ensures
        number_at(b, pos) == Some(x),
{
    vstd::bytes::lemma_auto_spec_u32_to_from_le_bytes();
    assert(spec_u32_to_le_bytes(x).len() == 4);
}

proof fn lemma_ids_read_back(b: Seq<u8>, pos: int, ids: Seq<Seq<char>>)
    requires
        0 <= pos,
        pos + id_bytes(ids).len() <= b.len(),
        b.subrange(pos, pos + id_bytes(ids).len()) == id_bytes(ids),
        forall|i: int|
            0 <= i < ids.len() ==> encode_utf8(#[trigger] ids[i]).len() <= u32::MAX,
    ensures
        ids_from(b, pos, ids.len()) == Ok::<(Seq<Seq<char>>, int), VectorsFaultView>(
            (ids, pos + id_bytes(ids).len()),
        ),
    decreases ids.len(),
{
    if ids.len() == 0 {
        assert(ids =~= Seq::empty());
    } else {
        vstd::bytes::lemma_auto_spec_u32_to_from_le_bytes();
        let e = encode_utf8(ids[0]);
        let n = e.len() as u32;
        let rest = ids.drop_first();
        let all = id_bytes(ids);
        let here = b.subrange(pos, pos + all.len());
        assert(spec_u32_to_le_bytes(n).len() == 4);
        assert(encode_utf8(ids[0]).len() <= u32::MAX);
        assert(b.subrange(pos, pos + 4) =~= here.subrange(0, 4));
        assert(here.subrange(0, 4) =~= spec_u32_to_le_bytes(n));
        lemma_number_at(b, pos, n);
        assert(b.subrange(pos + 4, pos + 4 + n) =~= here.subrange(4, 4 + n));
        assert(here.subrange(4, 4 + n) =~= e);
        vstd::utf8::encode_utf8_valid_utf8(ids[0]);
        vstd::utf8::encode_utf8_decode_utf8(ids[0]);
        let next = pos + 4 + n;
        assert(b.subrange(next, next + id_bytes(rest).len()) =~= here.subrange(
            4 + n,
            all.len() as int,
        ));
        assert(here.subrange(4 + n, all.len() as int) =~= id_bytes(rest));
        assert forall|i: int| 0 <= i < rest.len() implies encode_utf8(#[trigger] rest[i]).len()
            <= u32::MAX by {
            assert(rest[i] == ids[i + 1]);
        }
        lemma_ids_read_back(b, next, rest);
        assert(seq![ids[0]] + rest =~= ids);
    }
}

proof fn lemma_component_bytes_len(v: Seq<u32>)
    ensures
        component_bytes(v).len() == 4 * v.len(),
    decreases v.len(),
{
    if v.len() > 0 {
        vstd::bytes::lemma_auto_spec_u32_to_from_le_bytes();
        assert(spec_u32_to_le_bytes(v[0]).len() == 4);
        lemma_component_bytes_len(v.drop_first());
    }
}

proof fn lemma_components_read_back(b: Seq<u8>, pos: int, v: Seq<u32>)
    requires
        0 <= pos,
        pos + component_bytes(v).len() <= b.len(),
        b.subrange(pos, pos + component_bytes(v).len()) == component_bytes(v),
    ensures
        components_from(b, pos, v.len()) == Ok::<Seq<u32>, VectorsFaultView>(v),
    decreases v.len(),
{
    if v.len() == 0 {
        assert(v =~= Seq::empty());
    } else {
        vstd::bytes::lemma_auto_spec_u32_to_from_le_bytes();
        let rest = v.drop_first();
        let all = component_bytes(v);
        let here = b.subrange(pos, pos + all.len());
        assert(spec_u32_to_le_bytes(v[0]).len() == 4);
        assert(b.subrange(pos, pos + 4) =~= here.subrange(0, 4));
        assert(here.subrange(0, 4) =~= spec_u32_to_le_bytes(v[0]));
        lemma_number_at(b, pos, v[0]);
        assert(b.subrange(pos + 4, pos + 4 + component_bytes(rest).len()) =~= here.subrange(
            4,
            all.len() as int,
        ));
        assert(here.subrange(4, all.len() as int) =~= component_bytes(rest));
        lemma_components_read_back(b, pos + 4, rest);
        assert(seq![v[0]] + rest =~= v);
    }
}

proof fn lemma_vectors_read_back(b: Seq<u8>, pos: int, vs: Seq<Seq<u32>>, dim: nat)
    requires
        0 <= pos,
        pos + vector_bytes(vs).len() <= b.len(),
        b.subrange(pos, pos + vector_bytes(vs).len()) == vector_bytes(vs),
        forall|i: int| 0 <= i < vs.len() ==> (#[trigger] vs[i]).len() == dim,
    ensures
        vectors_from(b, pos, vs.len(), dim) == Ok::<Seq<Seq<u32>>, VectorsFaultView>(vs),
    decreases vs.len(),
{
    if vs.len() == 0 {
        assert(vs =~= Seq::empty());
    } else {
        let v = vs[0];
        let rest = vs.drop_first();
        let all = vector_bytes(vs);
        let here = b.subrange(pos, pos + all.len());
        lemma_component_bytes_len(v);
        let n = component_bytes(v).len();
        assert(b.subrange(pos, pos + n) =~= here.subrange(0, n as int));
        assert(here.subrange(0, n as int) =~= component_bytes(v));
        lemma_components_read_back(b, pos, v);
        assert(b.subrange(pos + n, pos + n + vector_bytes(rest).len()) =~= here.subrange(
            n as int,
            all.len() as int,
        ));
        assert(here.subrange(n as int, all.len() as int) =~= vector_bytes(rest));
        assert forall|i: int| 0 <= i < rest.len() implies (#[trigger] rest[i]).len() == dim by {
            assert(rest[i] == vs[i + 1]);
        }
        lemma_vectors_read_back(b, pos + n, rest, dim);
        assert(seq![v] + rest =~= vs);
    }
}

/// What was written is read back: the same IDs and the same vectors, as long as there is one ID
/// per vector, each vector has the stated number of components, and all lengths fit the file's
/// four bytes.
pub proof fn law_vectors_read_back(ids: Seq<Seq<char>>, vectors: Seq<Seq<u32>>, dim: nat)
    requires
        ids.len() == vectors.len(),
        vectors.len() <= u32::MAX,
        dim <= u32::MAX,
        forall|i: int| 0 <= i < vectors.len() ==> (#[trigger] vectors[i]).len() == dim,
        forall|i: int|
            0 <= i < ids.len() ==> encode_utf8(#[trigger] ids[i]).len() <= u32::MAX,
    ensures
        read_file(vectors_file(ids, vectors, dim), dim) == Ok::<
            (Seq<Seq<char>>, Seq<Seq<u32>>),
            VectorsFaultView,
        >((ids, vectors)),
{
    vstd::bytes::lemma_auto_spec_u32_to_from_le_bytes();
    let b = vectors_file(ids, vectors, dim);
    let count = vectors.len() as u32;
    let width = dim as u32;
    assert(spec_u32_to_le_bytes(count).len() == 4);
    assert(spec_u32_to_le_bytes(width).len() == 4);
    assert(b.subrange(0, 4) =~= spec_u32_to_le_bytes(count));
    assert(b.subrange(4, 8) =~= spec_u32_to_le_bytes(width));
    lemma_number_at(b, 0, count);
    lemma_number_at(b, 4, width);
    let n = id_bytes(ids).len() as int;
    assert(b.subrange(8, 8 + n) =~= id_bytes(ids));
    lemma_ids_read_back(b, 8, ids);
    assert(b.subrange(8 + n, 8 + n + vector_bytes(vectors).len()) =~= vector_bytes(vectors));
    lemma_vectors_read_back(b, 8 + n, vectors, dim);
}

} // verus!
