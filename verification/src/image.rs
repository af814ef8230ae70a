use vstd::prelude::*;
use vstd::utf8::*;
use vstd::string::*;
use crate::error::RbdError;
use crate::errno::{range_error, no_entry_error, range_errno, no_entry_errno};
use crate::cstr::{c_string_bytes, nul_free, nul_error, string_from_bytes};
use crate::fields::{split_nul, decode_fields, split_fields};
use crate::options::{OptionsRun, derived_options, derived_settings};

verus! {

/// What `rbd_stat` reports of an image.
#[derive(Debug)]
pub struct RbdImageInfo {
    pub size: u64,
    pub obj_size: u64,
    pub num_objs: u64,
    pub order: i32,
    pub block_name_prefix: String,
    pub parent_pool: i64,
    pub parent_name: Option<String>,
}

/// The bytes of a fixed-size C character array with every NUL byte removed.
pub open spec fn strip_nul(s: Seq<u8>) -> Seq<u8>
    decreases s.len(),
{
    if s.len() == 0 {
        s
    } else {
        let rest = strip_nul(s.drop_last());
        if s.last() == 0 {
            rest
        } else {
            rest.push(s.last())
        }
    }
}

/// Removes every NUL byte from a fixed-size C character array.
pub fn non_nul_bytes(buf: &[u8]) -> (r: Vec<u8>)
    ensures
        r@ == strip_nul(buf@),
{
    let mut out: Vec<u8> = Vec::new();
    let mut i: usize = 0;
    proof {
        assert(buf@.take(0) =~= Seq::<u8>::empty());
    }
    while i < buf.len()
        invariant
            0 <= i <= buf@.len(),
            out@ == strip_nul(buf@.take(i as int)),
        decreases buf@.len() - i,
    {
        assert(buf@.take(i + 1).drop_last() =~= buf@.take(i as int));
        if buf[i] != 0 {
            out.push(buf[i]);
        }
        i = i + 1;
    }
    assert(buf@.take(buf@.len() as int) =~= buf@);
    out
}

impl RbdImageInfo {
    /// Builds the image information from the fields of librbd's
    /// `rbd_image_info_t`: the two character arrays lose their NUL bytes and
    /// must be UTF-8, the block name prefix first; an empty parent name
    /// means the image has no parent.
    pub fn from_raw(
        size: u64,
        obj_size: u64,
        num_objs: u64,
        order: i32,
        block_name_prefix: &[u8],
        parent_pool: i64,
        parent_name: &[u8],
    ) -> (r: Result<RbdImageInfo, RbdError>)
        ensures
            match r {
                Ok(info) => {
                    &&& valid_utf8(strip_nul(block_name_prefix@))
                    &&& valid_utf8(strip_nul(parent_name@))
                    &&& info.size == size
                    &&& info.obj_size == obj_size
                    &&& info.num_objs == num_objs
                    &&& info.order == order
                    &&& info.parent_pool == parent_pool
                    &&& info.block_name_prefix@ == decode_utf8(strip_nul(block_name_prefix@))
                    &&& strip_nul(parent_name@).len() == 0 ==> info.parent_name is None
                    &&& strip_nul(parent_name@).len() > 0 ==> (info.parent_name matches Some(n)
                        && n@ == decode_utf8(strip_nul(parent_name@)))
                },
                Err(e) => if !valid_utf8(strip_nul(block_name_prefix@)) {
                    e matches RbdError::InvalidUtf8(b) && b@ == strip_nul(block_name_prefix@)
                } else {
                    !valid_utf8(strip_nul(parent_name@)) && (e matches RbdError::InvalidUtf8(b)
                        && b@ == strip_nul(parent_name@))
                },
            },
    {
        let prefix = match string_from_bytes(non_nul_bytes(block_name_prefix)) {
            Ok(s) => s,
            Err(e) => return Err(e),
        };
        let parent_bytes = non_nul_bytes(parent_name);
        let parent_empty = parent_bytes.len() == 0;
        let parent = match string_from_bytes(parent_bytes) {
            Ok(s) => s,
            Err(e) => return Err(e),
        };
        let parent_name = if parent_empty {
            None
        } else {
            Some(parent)
        };
        Ok(
            RbdImageInfo {
                size,
                obj_size,
                num_objs,
                order,
                block_name_prefix: prefix,
                parent_pool,
                parent_name,
            },
        )
    }
}

/// What to do after a call that fills caller-sized buffers.
#[derive(Debug, PartialEq, Eq, Structural)]
pub enum BufferStep {
    /// The buffers were too small: make them as large as librbd asked and
    /// call again.
    Retry,
    /// The call is over; read what it wrote.
    Proceed,
    /// The call failed with this code.
    Fail(i32),
    /// The call failed; make it again with the same buffers.
    Repeat,
}

/// The step after `rbd_lock_get_owners`: a range error asks for more room,
/// a missing lock means there are no owners, any other failure ends the
/// request, success ends it too.
pub fn lock_owners_step(code: i32) -> (r: BufferStep)
    ensures
        code >= 0 ==> r == BufferStep::Proceed,
        code == -no_entry_error() ==> r == BufferStep::Proceed,
        code == -range_error() ==> r == BufferStep::Retry,
        code < 0 && code != -no_entry_error() && code != -range_error() ==> r == BufferStep::Fail(
            code,
        ),
{
    let enoent = no_entry_errno();
    let erange = range_errno();
    if code >= 0 || code == -enoent {
        BufferStep::Proceed
    } else if code == -erange {
        BufferStep::Retry
    } else {
        BufferStep::Fail(code)
    }
}

/// The step after `rbd_metadata_list`: a range error asks for more room,
/// success leaves the keys and values to read, and any other failure is
/// met by making the call again.
pub fn metadata_step(code: i32) -> (r: BufferStep)
    ensures
        code >= 0 ==> r == BufferStep::Proceed,
        code == -range_error() ==> r == BufferStep::Retry,
        code < 0 && code != -range_error() ==> r == BufferStep::Repeat,
{
    let erange = range_errno();
    if code >= 0 {
        BufferStep::Proceed
    } else if code == -erange {
        BufferStep::Retry
    } else {
        BufferStep::Repeat
    }
}

/// The entries of the metadata listing: the i-th key with the i-th value,
/// for as many as both lists hold, leaving out those whose key or value is
/// empty.
pub open spec fn paired(ks: Seq<Seq<char>>, vs: Seq<Seq<char>>, n: nat) -> Seq<
    (Seq<char>, Seq<char>),
>
    decreases n,
{
    if n == 0 {
        Seq::empty()
    } else {
        let rest = paired(ks, vs, (n - 1) as nat);
        let k = ks[n - 1];
        let v = vs[n - 1];
        if k.len() > 0 && v.len() > 0 {
            rest.push((k, v))
        } else {
            rest
        }
    }
}

/// The smaller of two lengths.
pub open spec fn min_len(a: nat, b: nat) -> nat {
    if a <= b {
        a
    } else {
        b
    }
}

/// Entry `i` is followed by a later entry with the same key.
pub open spec fn superseded(es: Seq<(Seq<char>, Seq<char>)>, i: int) -> bool {
    exists|j: int| i < j < es.len() && es[j].0 == es[i].0
}

/// The first `n` entries, leaving out each one that a later entry (among
/// all of them) with the same key replaces.
pub open spec fn keep_last(es: Seq<(Seq<char>, Seq<char>)>, n: nat) -> Seq<(Seq<char>, Seq<char>)>
    decreases n,
{
    if n == 0 {
        Seq::empty()
    } else {
        let rest = keep_last(es, (n - 1) as nat);
        if superseded(es, n - 1) {
            rest
        } else {
            rest.push(es[n - 1])
        }
    }
}

/// The entries as a map keyed by name holds them: for each key, the last
/// entry with it, in the order of those last entries.
pub open spec fn latest_entries(es: Seq<(Seq<char>, Seq<char>)>) -> Seq<(Seq<char>, Seq<char>)> {
    keep_last(es, es.len())
}

/// What the key and value buffers of a metadata listing hold: each is a
/// list of NUL-separated UTF-8 fields, the keys read first; the i-th key
/// goes with the i-th value, and a later entry replaces an earlier one with
/// the same key.
pub open spec fn metadata_outcome(keys: Seq<u8>, values: Seq<u8>) -> Result<
    Seq<(Seq<char>, Seq<char>)>,
    Seq<u8>,
> {
    match decode_fields(split_nul(keys)) {
        Err(b) => Err(b),
        Ok(ks) => match decode_fields(split_nul(values)) {
            Err(b) => Err(b),
            Ok(vs) => Ok(latest_entries(paired(ks, vs, min_len(ks.len(), vs.len())))),
        },
    }
}

/// The views of a sequence of string pairs.
pub open spec fn entries_view(v: Seq<(String, String)>) -> Seq<(Seq<char>, Seq<char>)> {
    v.map_values(|p: (String, String)| (p.0@, p.1@))
}

/// Keeps, for each key, only its last entry.
pub fn latest_only(v: Vec<(String, String)>) -> (r: Vec<(String, String)>)
    ensures
        entries_view(r@) == latest_entries(entries_view(v@)),
{
    let ghost es = entries_view(v@);
    let mut out: Vec<(String, String)> = Vec::new();
    let mut i: usize = 0;
    proof {
        assert(entries_view(out@) =~= Seq::<(Seq<char>, Seq<char>)>::empty());
    }
    while i < v.len()
        invariant
            0 <= i <= v@.len(),
            es == entries_view(v@),
            entries_view(out@) == keep_last(es, i as nat),
        decreases v@.len() - i,
    {
        let mut later = false;
        let mut j: usize = i + 1;
        while j < v.len()
            invariant
                i < j <= v@.len(),
                es == entries_view(v@),
                later <==> exists|k: int| i < k < j && es[k].0 == es[i as int].0,
            decreases v@.len() - j,
        {
            assert(es[j as int].0 == v@[j as int].0@);
            assert(es[i as int].0 == v@[i as int].0@);
            if v[j].0 == v[i].0 {
                later = true;
            }
            j = j + 1;
        }
        assert(later == superseded(es, i as int));
        if !later {
            let ghost before = out@;
            out.push((v[i].0.clone(), v[i].1.clone()));
            assert(entries_view(out@) =~= entries_view(before).push(es[i as int]));
        }
        i = i + 1;
    }
    out
}

/// Reads the key and value buffers filled by `rbd_metadata_list` into
/// key-value pairs, one per key.
pub fn metadata_entries(keys: &[u8], values: &[u8]) -> (r: Result<Vec<(String, String)>, RbdError>)
    ensures
        match r {
            Ok(v) => metadata_outcome(keys@, values@) == Ok::<
                Seq<(Seq<char>, Seq<char>)>,
                Seq<u8>,
            >(entries_view(v@)),
            Err(e) => metadata_outcome(keys@, values@) is Err && (e matches RbdError::InvalidUtf8(b)
                && metadata_outcome(keys@, values@) == Err::<Seq<(Seq<char>, Seq<char>)>, Seq<u8>>(
                b@,
            )),
        },
{
    let ks = match split_fields(keys) {
        Ok(v) => v,
        Err(e) => return Err(e),
    };
    let vs = match split_fields(values) {
        Ok(v) => v,
        Err(e) => return Err(e),
    };
    let ghost kt = ks@.map_values(|s: String| s@);
    let ghost vt = vs@.map_values(|s: String| s@);
    let n = if ks.len() <= vs.len() {
        ks.len()
    } else {
        vs.len()
    };
    let mut out: Vec<(String, String)> = Vec::new();
    let mut i: usize = 0;
    proof {
        assert(entries_view(out@) =~= Seq::<(Seq<char>, Seq<char>)>::empty());
    }
    while i < n
        invariant
            0 <= i <= n,
            n == min_len(ks@.len(), vs@.len()),
            kt == ks@.map_values(|s: String| s@),
            vt == vs@.map_values(|s: String| s@),
            entries_view(out@) == paired(kt, vt, i as nat),
        decreases n - i,
    {
        let ghost before = out@;
        let k = &ks[i];
        let v = &vs[i];
        assert(kt[i as int] == k@);
        assert(vt[i as int] == v@);
        if !k.as_str().is_empty() && !v.as_str().is_empty() {
            out.push((k.clone(), v.clone()));
            assert(entries_view(out@) =~= entries_view(before).push((k@, v@)));
        }
        i = i + 1;
    }
    Ok(latest_only(out))
}

/// The result of `rbd_read`: the number of bytes read, or the failure,
/// whose code is the answer cut down to an `int`.
pub fn read_outcome(size_read: isize) -> (r: Result<isize, RbdError>)
    ensures
        size_read >= 0 ==> r == Ok::<isize, RbdError>(size_read),
        size_read < 0 ==> r == Err::<isize, RbdError>(RbdError::Api(size_read as i32)),
{
    if size_read < 0 {
        Err(RbdError::Api(size_read as i32))
    } else {
        Ok(size_read)
    }
}

/// A validated request to copy an image: the destination name as a C
/// string and the run through the copy's option list.
pub struct ImageCopy {
    pub dest_name: Vec<u8>,
    pub run: OptionsRun,
}

/// Prepares the copy of an image: the destination name must be a valid C
/// string; the option list is the one of copying.
pub fn copy_request(
    dest_name: &str,
    features: Option<u64>,
    order: Option<u64>,
    stripe_unit: Option<u64>,
    stripe_count: Option<u64>,
) -> (r: Result<ImageCopy, RbdError>)
    ensures
        match r {
            Ok(req) => {
                &&& nul_free(dest_name.spec_bytes())
                &&& req.dest_name@ == dest_name.spec_bytes().push(0u8)
                &&& req.run.settings() == derived_settings(features, order, stripe_unit, stripe_count)
                &&& req.run.answers() == Seq::<i32>::empty()
            },
            Err(e) => !nul_free(dest_name.spec_bytes()) && nul_error(e, dest_name.spec_bytes()),
        },
{
    let dest_name = match c_string_bytes(dest_name) {
        Ok(b) => b,
        Err(e) => return Err(e),
    };
    let settings = derived_options(features, order, stripe_unit, stripe_count);
    Ok(ImageCopy { dest_name, run: OptionsRun::new(settings) })
}

} // verus!
