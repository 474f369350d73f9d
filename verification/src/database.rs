//! The database namespace: a database is a named directory under the
//! store's root. The caller reads the root directory and hands its
//! contents in as plain values; the decisions about existence, creation
//! and removal are made here.
use vstd::prelude::*;

use crate::text::str_eq;

verus! {

/// Why a database operation was refused.
#[derive(Debug)]
pub enum DatabaseError {
    /// A database of that name already exists.
    DuplicatedDB(String),
    /// No database of that name exists.
    NotFound(String),
}

/// One entry of the root directory's listing: its file name and whether it
/// is a directory.
pub struct DirEntry {
    pub name: String,
    pub is_dir: bool,
}

/// The names of the directories among the listing's entries at or after
/// index `i`, in listing order.
pub open spec fn dir_names_from(es: Seq<DirEntry>, i: int) -> Seq<Seq<char>>
    decreases es.len() - i
        when 0 <= i <= es.len()
{
    if i >= es.len() {
        Seq::empty()
    } else if es[i].is_dir {
        seq![es[i].name@] + dir_names_from(es, i + 1)
    } else {
        dir_names_from(es, i + 1)
    }
}

/// The database namespace's decision logic, over a listing of the names of
/// the databases that exist.
pub struct Database;

impl Database {
    /// Whether a database called `name` is among the existing ones.
    pub fn db_exists(dbs: &Vec<String>, name: &str) -> (r: bool)
        ensures
            r == dbs.deep_view().contains(name@),
    {
        let mut i: usize = 0;
        while i < dbs.len()
            invariant
                i <= dbs@.len(),
                dbs.deep_view().len() == dbs@.len(),
                forall|j: int| 0 <= j < i ==> dbs.deep_view()[j] != name@,
            decreases dbs@.len() - i,
        {
            proof {
                assert(dbs.deep_view()[i as int] == dbs@[i as int]@);
            }
            if str_eq(dbs[i].as_str(), name) {
                return true;
            }
            i += 1;
        }
        false
    }

    /// Succeeds exactly when a database called `name` exists.
    pub fn exists_or_err(dbs: &Vec<String>, name: &str) -> (r: Result<(), DatabaseError>)
        ensures
            (match r {
                Result::Ok(_) => dbs.deep_view().contains(name@),
                Result::Err(DatabaseError::NotFound(n)) => !dbs.deep_view().contains(name@) && n@
                    == name@,
                Result::Err(_) => false,
            }),
    {
        if Database::db_exists(dbs, name) {
            Result::Ok(())
        } else {
            Result::Err(DatabaseError::NotFound(name.to_owned()))
        }
    }

    /// Whether a database called `name` may be created: refused as
    /// duplicated exactly when the name is already taken. The caller
    /// creates the directory on success.
    pub fn new(dbs: &Vec<String>, name: &str) -> (r: Result<(), DatabaseError>)
        ensures
            (match r {
                Result::Ok(_) => !dbs.deep_view().contains(name@),
                Result::Err(DatabaseError::DuplicatedDB(n)) => dbs.deep_view().contains(name@) && n@
                    == name@,
                Result::Err(_) => false,
            }),
    {
        if Database::db_exists(dbs, name) {
            Result::Err(DatabaseError::DuplicatedDB(name.to_owned()))
        } else {
            Result::Ok(())
        }
    }

    /// Whether a database called `name` may be dropped: refused as not
    /// found exactly when no such database exists. The caller removes the
    /// directory, which must already be empty, on success.
    pub fn drop(dbs: &Vec<String>, name: &str) -> (r: Result<(), DatabaseError>)
        ensures
            (match r {
                Result::Ok(_) => dbs.deep_view().contains(name@),
                Result::Err(DatabaseError::NotFound(n)) => !dbs.deep_view().contains(name@) && n@
                    == name@,
                Result::Err(_) => false,
            }),
    {
        Database::exists_or_err(dbs, name)
    }

    /// The database names in a listing of the root directory: the names of
    /// its subdirectories, in listing order.
    pub fn get_dbs(root: &Vec<DirEntry>) -> (dbs: Vec<String>)
        ensures
            dbs.deep_view() == dir_names_from(root@, 0),
    {
        let mut out: Vec<String> = Vec::new();
        proof {
            assert(out.deep_view() + dir_names_from(root@, 0) =~= dir_names_from(root@, 0));
        }
        let mut i: usize = 0;
        while i < root.len()
            invariant
                i <= root@.len(),
                dir_names_from(root@, 0) == out.deep_view() + dir_names_from(root@, i as int),
            decreases root@.len() - i,
        {
            let ghost prev = out.deep_view();
            let e = &root[i];
            if e.is_dir {
                out.push(e.name.clone());
                proof {
                    assert(out.deep_view() =~= prev.push(root@[i as int].name@));
                    assert(prev + dir_names_from(root@, i as int) =~= out.deep_view()
                        + dir_names_from(root@, i as int + 1));
                }
            }
            i += 1;
        }
        proof {
            assert(out.deep_view() + dir_names_from(root@, root@.len() as int) =~= out.deep_view());
        }
        out
    }
}

} // verus!
