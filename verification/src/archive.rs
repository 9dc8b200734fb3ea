//! Reading a downloaded mod archive.  The ZIP container itself is
//! parsed by the `zip` crate; this module asks it for the entry names
//! and derives, with proof, the `folder` value the manifest records —
//! the outermost path segment of the archive's first entry.

use vstd::prelude::*;

use crate::install::ModError;
use crate::secret::lemma_bytes_deep_view;

verus! {

/// ASCII forward slash, the archive's path separator.
pub const PATH_SEPARATOR: u8 = 47;

/// The entry names a ZIP archive's central directory lists, in
/// directory order, or `None` where the bytes are not a readable
/// archive.  What the names are is a function of the bytes alone.
pub uninterp spec fn zip_entries(bytes: Seq<u8>) -> Option<Seq<Seq<u8>>>;

/// Relies on `zip::ZipArchive` (crate `zip`): `new` parses the central
/// directory of an in-memory buffer and `by_index_raw` yields each
/// entry's name, in directory order, from the buffer's bytes alone.
#[verifier::external_body]
fn zip_entry_names(bytes: &Vec<u8>) -> (r: Option<Vec<Vec<u8>>>)
    ensures
        r is Some <==> zip_entries(bytes@) is Some,
        r matches Some(names) ==> Some(names.deep_view()) == zip_entries(bytes@),
{
    let cursor = std::io::Cursor::new(bytes.as_slice());
    let mut archive = match zip::ZipArchive::new(cursor) {
        Ok(a) => a,
        Err(_) => return None,
    };
    let mut names: Vec<Vec<u8>> = Vec::new();
    for i in 0..archive.len() {
        match archive.by_index_raw(i) {
            Ok(file) => names.push(file.name().as_bytes().to_vec()),
            Err(_) => return None,
        }
    }
    Some(names)
}

/// Length of a name's outermost path segment: everything before the
/// first separator.
pub open spec fn first_segment_len(name: Seq<u8>) -> int
    decreases name.len(),
{
    if name.len() == 0 {
        0
    } else if name[0] == PATH_SEPARATOR {
        0
    } else {
        1 + first_segment_len(name.skip(1))
    }
}

/// The outermost segment lies within the name.
pub proof fn lemma_first_segment_len_bound(name: Seq<u8>)
    ensures
        0 <= first_segment_len(name) <= name.len(),
    decreases name.len(),
{
    if name.len() > 0 && name[0] != PATH_SEPARATOR {
        lemma_first_segment_len_bound(name.skip(1));
    }
}

/// What the manifest's `folder` value is for given archive contents: an
/// unreadable archive, an archive with no entries, and a first entry
/// whose outermost segment is empty are each their own error; otherwise
/// it is that segment.
pub open spec fn spec_folder_of(entries: Option<Seq<Seq<u8>>>) -> Result<Seq<u8>, ModError> {
    match entries {
        None => Err(ModError::BadArchive),
        Some(names) => if names.len() == 0 {
            Err(ModError::EmptyArchive)
        } else if first_segment_len(names[0]) == 0 {
            Err(ModError::EmptyEntryName)
        } else {
            Ok(names[0].take(first_segment_len(names[0])))
        },
    }
}

/// The folder a downloaded archive installs as: the outermost path
/// segment of its first entry's name.
pub fn archive_folder(bytes: &Vec<u8>) -> (r: Result<Vec<u8>, ModError>)
    ensures
        match spec_folder_of(zip_entries(bytes@)) {
            Ok(folder) => r matches Ok(v) && v@ == folder,
            Err(e) => r matches Err(e2) && e2 == e,
        },
{
    let names = match zip_entry_names(bytes) {
        None => {
            return Err(ModError::BadArchive);
        },
        Some(names) => names,
    };
    if names.len() == 0 {
        proof {
            assert(names.deep_view().len() == 0);
        }
        return Err(ModError::EmptyArchive);
    }
    let name = &names[0];
    proof {
        lemma_bytes_deep_view(names@[0]);
        assert(names.deep_view()[0] == name@);
        lemma_first_segment_len_bound(name@);
        assert(name@.skip(0) =~= name@);
    }
    let len = name.len();
    let mut j: usize = 0;
    while j < len && name[j] != PATH_SEPARATOR
        invariant
            len == name@.len(),
            j <= len,
            first_segment_len(name@) == j + first_segment_len(name@.skip(j as int)),
        decreases len - j,
    {
        proof {
            assert(name@.skip(j as int)[0] == name@[j as int]);
            assert(name@.skip(j as int).skip(1) =~= name@.skip(j + 1));
        }
        j += 1;
    }
    proof {
        if j < len {
            assert(name@.skip(j as int)[0] == name@[j as int]);
            assert(first_segment_len(name@.skip(j as int)) == 0);
        } else {
            assert(name@.skip(len as int) =~= Seq::<u8>::empty());
        }
        assert(first_segment_len(name@) == j as int);
    }
    if j == 0 {
        return Err(ModError::EmptyEntryName);
    }
    let folder = vstd::slice::slice_to_vec(vstd::slice::slice_subrange(name.as_slice(), 0, j));
    proof {
        assert(folder@ =~= name@.take(j as int));
    }
    Ok(folder)
}

} // verus!
