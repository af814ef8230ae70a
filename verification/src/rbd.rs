use vstd::prelude::*;
use crate::error::RbdError;
use crate::errno::{range_error, range_errno};
use crate::fields::{split_nul, decode_fields, drop_empty, texts, split_fields, non_empty_strings};
use crate::cstr::{c_string_bytes, nul_free, nul_error};
use crate::options::{OptionsRun, creation_options, creation_settings, derived_options, derived_settings};
use vstd::string::*;
use vstd::slice::slice_subrange;

verus! {

/// Entry point to the pool-level operations of librbd: creating, cloning,
/// listing, renaming and removing images, and pool mirroring.
pub struct Rbd;

/// A client holding a lock on an image, and the mode of its lock.
pub struct LockOwner {
    pub name: String,
    pub mode: i32,
}

/// The bytes of a listing buffer that name images: a buffer whose last
/// name is not NUL-terminated loses that name's last byte, as if it were
/// the terminator.
pub open spec fn trim_unterminated(buf: Seq<u8>) -> Seq<u8> {
    if buf.len() > 0 && buf.last() != 0 {
        buf.drop_last()
    } else {
        buf
    }
}

/// The image names of a listing buffer: its NUL-separated fields as UTF-8
/// text, with the empty fields left out, a final unterminated name losing
/// its last byte.
pub open spec fn listed_names(buf: Seq<u8>) -> Result<Seq<Seq<char>>, Seq<u8>> {
    match decode_fields(split_nul(trim_unterminated(buf))) {
        Ok(ts) => Ok(drop_empty(ts)),
        Err(b) => Err(b),
    }
}

impl Rbd {
    /// The capacity of the buffer for the listing call, from the answer to
    /// the first call, made with an empty buffer: a range error reports the
    /// size librbd needs, which gets one more byte; any other failure ends
    /// the listing; success means there is nothing to list.
    pub fn list_buffer_size(probe_code: i32, name_size: usize) -> (r: Result<usize, RbdError>)
        requires
            probe_code == -range_error() ==> name_size < usize::MAX,
        ensures
            probe_code == -range_error() ==> r == Ok::<usize, RbdError>((name_size + 1) as usize),
            probe_code != -range_error() && probe_code < 0 ==> r == Err::<usize, RbdError>(
                RbdError::Api(probe_code),
            ),
            probe_code >= 0 ==> r == Ok::<usize, RbdError>(0),
    {
        let erange = range_errno();
        if probe_code == -erange {
            Ok(name_size + 1)
        } else if probe_code < 0 {
            Err(RbdError::Api(probe_code))
        } else {
            Ok(0)
        }
    }

    /// How many bytes of the listing buffer hold names, from the answer to
    /// the listing call: the count of bytes written; a failed call leaves
    /// nothing to read.
    pub fn listed_length(code: i32) -> (n: usize)
        ensures
            code < 0 ==> n == 0,
            code >= 0 ==> n == code,
    {
        if code < 0 {
            0
        } else {
            code as u32 as usize
        }
    }

    /// The image names in a listing buffer: librbd writes each name followed
    /// by a NUL byte, and the last byte of each name's chunk is dropped as
    /// its terminator. Empty names are skipped; a name that is not UTF-8
    /// fails the listing.
    pub fn image_names(buf: &[u8]) -> (r: Result<Vec<String>, RbdError>)
        ensures
            match r {
                Ok(v) => listed_names(buf@) == Ok::<Seq<Seq<char>>, Seq<u8>>(texts(v@)),
                Err(e) => listed_names(buf@) is Err && (e matches RbdError::InvalidUtf8(b)
                    && listed_names(buf@) == Err::<Seq<Seq<char>>, Seq<u8>>(b@)),
            },
    {
        let n = buf.len();
        let names = if n > 0 && buf[n - 1] != 0 {
            slice_subrange(buf, 0, n - 1)
        } else {
            buf
        };
        proof {
            if n > 0 && buf@[n - 1] != 0 {
                assert(names@ =~= buf@.drop_last());
            }
        }
        match split_fields(names) {
            Ok(all) => Ok(non_empty_strings(&all)),
            Err(e) => Err(e),
        }
    }
}

/// A validated request to create an image: its name as a C string, its
/// size, and the run through its option list.
pub struct ImageCreation {
    pub name: Vec<u8>,
    pub size: u64,
    pub run: OptionsRun,
}

/// A validated request to clone a snapshot: the parent image and snapshot
/// names and the child's name as C strings, and the run through the
/// child's option list.
pub struct ImageClone {
    pub parent_name: Vec<u8>,
    pub parent_snapname: Vec<u8>,
    pub name: Vec<u8>,
    pub run: OptionsRun,
}

impl Rbd {
    /// Prepares image creation: the name, then the data pool's name when
    /// one is given, must be valid C strings, the first that is not failing
    /// the request; the option list is the creation list, of an old-style
    /// (format 1) image when `old_format` holds.
    pub fn creation_request(
        name: &str,
        size: u64,
        order: Option<u64>,
        old_format: bool,
        features: Option<u64>,
        stripe_unit: Option<u64>,
        stripe_count: Option<u64>,
        data_pool: Option<&str>,
    ) -> (r: Result<ImageCreation, RbdError>)
        ensures
            match r {
                Ok(req) => {
                    &&& nul_free(name.spec_bytes())
                    &&& req.name@ == name.spec_bytes().push(0u8)
                    &&& req.size == size
                    &&& req.run.settings() == creation_settings(
                        order,
                        old_format,
                        features,
                        stripe_unit,
                        stripe_count,
                        match data_pool {
                            Some(p) => Some(p.spec_bytes().push(0u8)),
                            None => None,
                        },
                    )
                    &&& (data_pool matches Some(p) ==> nul_free(p.spec_bytes()))
                    &&& req.run.answers() == Seq::<i32>::empty()
                },
                Err(e) => if !nul_free(name.spec_bytes()) {
                    nul_error(e, name.spec_bytes())
                } else {
                    data_pool matches Some(p) && !nul_free(p.spec_bytes()) && nul_error(
                        e,
                        p.spec_bytes(),
                    )
                },
            },
    {
        let name = match c_string_bytes(name) {
            Ok(b) => b,
            Err(e) => return Err(e),
        };
        let pool = match data_pool {
            Some(p) => match c_string_bytes(p) {
                Ok(b) => Some(b),
                Err(e) => return Err(e),
            },
            None => None,
        };
        let settings = creation_options(order, old_format, features, stripe_unit, stripe_count, pool);
        Ok(ImageCreation { name, size, run: OptionsRun::new(settings) })
    }

    /// Prepares the clone of a snapshot: the snapshot name, the parent
    /// name and the child name are checked in this order, the first one
    /// that is not a valid C string failing the request; the option list is
    /// the one of cloning.
    pub fn clone_request(
        parent_name: &str,
        parent_snapname: &str,
        name: &str,
        features: Option<u64>,
        order: Option<u64>,
        stripe_unit: Option<u64>,
        stripe_count: Option<u64>,
    ) -> (r: Result<ImageClone, RbdError>)
        ensures
            match r {
                Ok(req) => {
                    &&& nul_free(parent_snapname.spec_bytes())
                    &&& nul_free(parent_name.spec_bytes())
                    &&& nul_free(name.spec_bytes())
                    &&& req.parent_snapname@ == parent_snapname.spec_bytes().push(0u8)
                    &&& req.parent_name@ == parent_name.spec_bytes().push(0u8)
                    &&& req.name@ == name.spec_bytes().push(0u8)
                    &&& req.run.settings() == derived_settings(
                        features,
                        order,
                        stripe_unit,
                        stripe_count,
                    )
                    &&& req.run.answers() == Seq::<i32>::empty()
                },
                Err(e) => if !nul_free(parent_snapname.spec_bytes()) {
                    nul_error(e, parent_snapname.spec_bytes())
                } else if !nul_free(parent_name.spec_bytes()) {
                    nul_error(e, parent_name.spec_bytes())
                } else {
                    !nul_free(name.spec_bytes()) && nul_error(e, name.spec_bytes())
                },
            },
    {
        let parent_snapname = match c_string_bytes(parent_snapname) {
            Ok(b) => b,
            Err(e) => return Err(e),
        };
        let parent_name = match c_string_bytes(parent_name) {
            Ok(b) => b,
            Err(e) => return Err(e),
        };
        let name = match c_string_bytes(name) {
            Ok(b) => b,
            Err(e) => return Err(e),
        };
        let settings = derived_options(features, order, stripe_unit, stripe_count);
        Ok(ImageClone { parent_name, parent_snapname, name, run: OptionsRun::new(settings) })
    }
}

} // verus!
