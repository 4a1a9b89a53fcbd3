//! The layout of a record store in a directory tree, and the reading of
//! what the file system says.
//!
//! Below the base directory every zone has a directory, in it every name a
//! directory, and in that every record type a file with the encoded records
//! of the type: `<base>/<zone>/<name>/<type>`. Which of them exist says what
//! a lookup gives. Touching the file system is no part of this module.

use crate::cache::names_view;
use crate::name::spec_name_text;
use crate::name::DomainName;
use crate::name::NameView;
use crate::record::spec_type_text;
use crate::record::type_code;
use crate::record::RecordType;
use crate::cache::all_lower;
use crate::cache::distinct_names;
use crate::cache::holds;
use crate::cache::name_in;
use crate::redis::name_of_text;
use crate::redis::spec_name_of_text;
use crate::storage::StorageError;
use std::path::PathBuf;
use vstd::prelude::*;

verus! {

/// The owned path of the standard library.
#[verifier::external_type_specification]
#[verifier::external_body]
pub struct ExPathBuf(PathBuf);

/// A record store in a directory tree.
pub struct FSStorage {
    base: PathBuf,
}

/// Where the records of one type at one name lie below the base directory:
/// the names of the zone's directory, of the name's directory in it, and of
/// the file of the type in that.
pub struct RecordLocation {
    pub zone: String,
    pub name: String,
    pub record_type: String,
}

/// What the file system says of a lookup.
#[derive(Debug, Clone, Copy, PartialEq, Eq, Structural)]
pub enum Found {
    /// The name has no directory: there is no such name.
    NoSuchName,
    /// The name has a directory and the type no file in it: the name has no
    /// record of the type.
    NoData,
    /// The file of the type exists and holds the encoded records.
    File,
}

/// What a lookup gives, from whether the directory of the name exists and
/// whether the file of the type exists in it.
pub open spec fn spec_classify(name_dir_exists: bool, type_file_exists: bool) -> Found {
    if !name_dir_exists {
        Found::NoSuchName
    } else if !type_file_exists {
        Found::NoData
    } else {
        Found::File
    }
}

/// One entry of the base directory.
pub struct DirEntry {
    /// Whether the entry is a directory.
    pub is_dir: bool,
    /// The name of the entry, or `None` where it is no text.
    pub name: Option<String>,
}

/// The mathematical value of a [`DirEntry`].
pub struct DirEntryView {
    pub is_dir: bool,
    pub name: Option<Seq<char>>,
}

impl View for DirEntry {
    type V = DirEntryView;

    open spec fn view(&self) -> DirEntryView {
        DirEntryView {
            is_dir: self.is_dir,
            name: match self.name {
                Some(text) => Some(text@),
                None => None,
            },
        }
    }
}

/// The entries held in a vector, in their order.
pub open spec fn entries_view(entries: Vec<DirEntry>) -> Seq<DirEntryView> {
    Seq::new(entries.len() as nat, |i: int| entries[i]@)
}

/// The zones that the entries of the base directory stand for, each once,
/// in the order in which the entries first stand for them: each directory
/// whose name is a text is a zone. An entry that is no directory, or whose
/// name is no text, is passed over, and so is one that stands for a zone
/// again. A directory whose name spells no domain name makes the whole
/// listing fail.
pub open spec fn spec_zones_of_entries(entries: Seq<DirEntryView>) -> Result<Seq<NameView>, StorageError>
    decreases entries.len(),
{
    if entries.len() == 0 {
        Ok(Seq::empty())
    } else {
        match spec_zones_of_entries(entries.drop_last()) {
            Err(e) => Err(e),
            Ok(rest) => {
                let entry = entries.last();
                if !entry.is_dir {
                    Ok(rest)
                } else {
                    match entry.name {
                        None => Ok(rest),
                        Some(text) => match spec_name_of_text(text) {
                            Some(zone) => if name_in(rest, zone.labels) {
                                Ok(rest)
                            } else {
                                Ok(rest.push(zone))
                            },
                            None => Err(StorageError::Encoding),
                        },
                    }
                }
            },
        }
    }
}

impl FSStorage {
    /// The base directory.
    pub closed spec fn base(&self) -> PathBuf {
        self.base
    }

    /// A store below the given base directory.
    pub fn new(base: PathBuf) -> (out: Self)
        ensures
            out.base() == base,
    {
        Self { base }
    }

    /// The base directory.
    pub fn base_path(&self) -> (out: &PathBuf)
        ensures
            *out == self.base(),
    {
        &self.base
    }

    /// Where the records of type `rtype` at `name` in `zone` lie below the
    /// base directory.
    pub fn locate(zone: &DomainName, name: &DomainName, rtype: RecordType) -> (out: RecordLocation)
        ensures
            out.zone@ == spec_name_text(zone@.labels, zone@.fqdn),
            out.name@ == spec_name_text(name@.labels, name@.fqdn),
            out.record_type@ == spec_type_text(type_code(rtype)),
    {
        RecordLocation { zone: zone.to_text(), name: name.to_text(), record_type: rtype.text() }
    }

    /// What a lookup gives, from whether the directory of the name exists
    /// and whether the file of the type exists in it.
    pub fn classify(name_dir_exists: bool, type_file_exists: bool) -> (out: Found)
        ensures
            out == spec_classify(name_dir_exists, type_file_exists),
    {
        if !name_dir_exists {
            Found::NoSuchName
        } else if !type_file_exists {
            Found::NoData
        } else {
            Found::File
        }
    }

    /// The zones that the entries of the base directory stand for, each
    /// once and in lower case.
    pub fn zones_of_entries(entries: &Vec<DirEntry>) -> (out: Result<Vec<DomainName>, StorageError>)
        ensures
            match spec_zones_of_entries(entries_view(*entries)) {
                Ok(zones) => out matches Ok(found) && names_view(found) == zones,
                Err(e) => out == Err::<Vec<DomainName>, StorageError>(e),
            },
            out matches Ok(found) ==> distinct_names(names_view(found)) && all_lower(names_view(found)),
    {
        let ghost all = entries_view(*entries);
        let mut zones: Vec<DomainName> = Vec::new();
        let mut i: usize = 0;
        assert(names_view(zones) =~= Seq::<NameView>::empty());
        assert(all.take(0) =~= Seq::<DirEntryView>::empty());
        while i < entries.len()
            invariant
                i <= entries.len(),
                all == entries_view(*entries),
                spec_zones_of_entries(all.take(i as int)) == Ok::<Seq<NameView>, StorageError>(names_view(zones)),
                distinct_names(names_view(zones)),
                all_lower(names_view(zones)),
            decreases entries.len() - i,
        {
            let ghost before = names_view(zones);
            assert(all.take(i as int + 1).drop_last() =~= all.take(i as int));
            assert(all.take(i as int + 1).last() == entries[i as int]@);
            let entry = &entries[i];
            if entry.is_dir {
                match &entry.name {
                    None => {},
                    Some(text) => {
                        match name_of_text(text.as_str()) {
                            Some(zone) => {
                                proof {
                                    crate::redis::lemma_name_of_text(text@);
                                }
                                if !holds(&zones, &zone) {
                                    let ghost zone_view = zone@;
                                    zones.push(zone);
                                    assert(names_view(zones) =~= before.push(zone_view));
                                }
                            },
                            None => {
                                proof {
                                    lemma_failure_stays(all, i as int + 1);
                                }
                                return Err(StorageError::Encoding);
                            },
                        }
                    },
                }
            }
            i = i + 1;
        }
        assert(all.take(entries.len() as int) =~= all);
        Ok(zones)
    }
}

/// Once the listing has failed on the first `n` entries, it fails on all.
proof fn lemma_failure_stays(entries: Seq<DirEntryView>, n: int)
    requires
        0 <= n <= entries.len(),
        spec_zones_of_entries(entries.take(n)) is Err,
    ensures
        spec_zones_of_entries(entries) == spec_zones_of_entries(entries.take(n)),
    decreases entries.len() - n,
{
    if n < entries.len() {
        assert(entries.take(n + 1).drop_last() =~= entries.take(n));
        lemma_failure_stays(entries, n + 1);
    } else {
        assert(entries.take(n) =~= entries);
    }
}

} // verus!
