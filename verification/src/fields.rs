use vstd::prelude::*;
use vstd::utf8::*;
use crate::cstr::string_from_bytes;
use crate::error::RbdError;

verus! {

/// The NUL-separated fields of a buffer: every NUL byte ends a field, and
/// the bytes after the last NUL (possibly none) form the last field.
pub open spec fn split_nul(s: Seq<u8>) -> Seq<Seq<u8>>
    decreases s.len(),
{
    if s.len() == 0 {
        seq![Seq::<u8>::empty()]
    } else {
        let prev = split_nul(s.drop_last());
        if s.last() == 0 {
            prev.push(Seq::<u8>::empty())
        } else {
            prev.update(prev.len() - 1, prev.last().push(s.last()))
        }
    }
}

/// Each field decoded as UTF-8, or the first field that is not valid UTF-8.
pub open spec fn decode_fields(fields: Seq<Seq<u8>>) -> Result<Seq<Seq<char>>, Seq<u8>>
    decreases fields.len(),
{
    if fields.len() == 0 {
        Ok(Seq::empty())
    } else {
        match decode_fields(fields.drop_last()) {
            Err(b) => Err(b),
            Ok(t) => if valid_utf8(fields.last()) {
                Ok(t.push(decode_utf8(fields.last())))
            } else {
                Err(fields.last())
            },
        }
    }
}

/// The texts that are not empty, in order.
pub open spec fn drop_empty(ts: Seq<Seq<char>>) -> Seq<Seq<char>>
    decreases ts.len(),
{
    if ts.len() == 0 {
        ts
    } else {
        let rest = drop_empty(ts.drop_last());
        if ts.last().len() == 0 {
            rest
        } else {
            rest.push(ts.last())
        }
    }
}

/// The views of a sequence of strings.
pub open spec fn texts(v: Seq<String>) -> Seq<Seq<char>> {
    v.map_values(|s: String| s@)
}

/// What a buffer of NUL-separated UTF-8 fields decodes to: the fields as
/// text, or the bytes of the first field that is not valid UTF-8.
pub open spec fn fields_outcome(r: Result<Vec<String>, RbdError>, buf: Seq<u8>) -> bool {
    match r {
        Ok(v) => decode_fields(split_nul(buf)) == Ok::<Seq<Seq<char>>, Seq<u8>>(texts(v@)),
        Err(e) => decode_fields(split_nul(buf)) is Err && (e matches RbdError::InvalidUtf8(b)
            && decode_fields(split_nul(buf)) == Err::<Seq<Seq<char>>, Seq<u8>>(b@)),
    }
}

/// A buffer always has at least one field.
pub proof fn lemma_split_nul_nonempty(s: Seq<u8>)
    ensures
        split_nul(s).len() >= 1,
    decreases s.len(),
{
    if s.len() > 0 {
        lemma_split_nul_nonempty(s.drop_last());
    }
}

/// Growing a buffer keeps every field of it but the last one.
pub proof fn lemma_split_nul_prefix(s: Seq<u8>, w: Seq<u8>)
    ensures
        split_nul(s + w).len() >= split_nul(s).len(),
        forall|k: int| 0 <= k < split_nul(s).len() - 1 ==> split_nul(s + w)[k] == split_nul(s)[k],
    decreases w.len(),
{
    lemma_split_nul_nonempty(s);
    if w.len() == 0 {
        assert(s + w =~= s);
    } else {
        let w0 = w.drop_last();
        lemma_split_nul_prefix(s, w0);
        assert((s + w).drop_last() =~= s + w0);
        lemma_split_nul_nonempty(s + w0);
    }
}

/// Once some fields fail to decode, any longer list that starts with them
/// fails on the same field.
pub proof fn lemma_decode_fields_prefix_err(a: Seq<Seq<u8>>, c: Seq<Seq<u8>>)
    requires
        a.len() <= c.len(),
        forall|k: int| 0 <= k < a.len() ==> c[k] == a[k],
        decode_fields(a) is Err,
    ensures
        decode_fields(c) == decode_fields(a),
    decreases c.len(),
{
    if c.len() == a.len() {
        assert(c =~= a);
    } else {
        lemma_decode_fields_prefix_err(a, c.drop_last());
    }
}

/// Splits a buffer into its NUL-separated fields and decodes each as UTF-8.
pub fn split_fields(buf: &[u8]) -> (r: Result<Vec<String>, RbdError>)
    ensures
        fields_outcome(r, buf@),
{
    let mut out: Vec<String> = Vec::new();
    let mut cur: Vec<u8> = Vec::new();
    let mut i: usize = 0;
    proof {
        assert(buf@.take(0) =~= Seq::<u8>::empty());
        assert(texts(out@) =~= Seq::<Seq<char>>::empty());
        assert(split_nul(buf@.take(0)).drop_last() =~= Seq::<Seq<u8>>::empty());
    }
    while i < buf.len()
        invariant
            0 <= i <= buf@.len(),
            split_nul(buf@.take(i as int)).len() >= 1,
            split_nul(buf@.take(i as int)).last() == cur@,
            decode_fields(split_nul(buf@.take(i as int)).drop_last()) == Ok::<
                Seq<Seq<char>>,
                Seq<u8>,
            >(texts(out@)),
        decreases buf@.len() - i,
    {
        let ghost before = buf@.take(i as int);
        let ghost parts = split_nul(before);
        let ghost out_before = out@;
        let b = buf[i];
        assert(buf@.take(i + 1).drop_last() =~= before);
        assert(buf@.take(i + 1).last() == b);
        assert(parts.drop_last().push(parts.last()) =~= parts);
        if b == 0 {
            assert(split_nul(buf@.take(i + 1)) == parts.push(Seq::<u8>::empty()));
            assert(split_nul(buf@.take(i + 1)).drop_last() =~= parts);
            let field = cur;
            cur = Vec::new();
            match string_from_bytes(field) {
                Ok(text) => {
                    out.push(text);
                    assert(texts(out@) =~= texts(out_before).push(text@));
                },
                Err(e) => {
                    proof {
                        assert(decode_fields(parts) == Err::<Seq<Seq<char>>, Seq<u8>>(parts.last()));
                        assert(buf@.take(i + 1) + buf@.skip(i + 1) =~= buf@);
                        lemma_split_nul_prefix(buf@.take(i + 1), buf@.skip(i + 1));
                        lemma_decode_fields_prefix_err(parts, split_nul(buf@));
                    }
                    return Err(e);
                },
            }
        } else {
            cur.push(b);
            assert(split_nul(buf@.take(i + 1)).drop_last() =~= parts.drop_last());
        }
        i = i + 1;
    }
    let ghost parts = split_nul(buf@);
    let ghost out_before = out@;
    proof {
        assert(buf@.take(buf@.len() as int) =~= buf@);
        assert(parts.drop_last().push(parts.last()) =~= parts);
    }
    match string_from_bytes(cur) {
        Ok(text) => {
            out.push(text);
            assert(texts(out@) =~= texts(out_before).push(text@));
            Ok(out)
        },
        Err(e) => Err(e),
    }
}

/// Keeps the strings that are not empty, in order.
pub fn non_empty_strings(v: &Vec<String>) -> (r: Vec<String>)
    ensures
        texts(r@) == drop_empty(texts(v@)),
{
    let mut out: Vec<String> = Vec::new();
    let mut i: usize = 0;
    proof {
        assert(texts(v@).take(0) =~= Seq::<Seq<char>>::empty());
        assert(texts(out@) =~= Seq::<Seq<char>>::empty());
    }
    while i < v.len()
        invariant
            0 <= i <= v@.len(),
            texts(out@) == drop_empty(texts(v@).take(i as int)),
        decreases v@.len() - i,
    {
        let ghost out_before = out@;
        assert(texts(v@).take(i + 1).drop_last() =~= texts(v@).take(i as int));
        assert(texts(v@).take(i + 1).last() == v@[i as int]@);
        let s = &v[i];
        if !s.as_str().is_empty() {
            out.push(s.clone());
            assert(texts(out@) =~= texts(out_before).push(v@[i as int]@));
        }
        i = i + 1;
    }
    assert(texts(v@).take(v@.len() as int) =~= texts(v@));
    out
}

} // verus!
