//! `export <file>`: a backup that survives a snapshot.
//!
//! Not a convenience. The data directory is snapshotted by the filesystem, and
//! a snapshot of a database with a write-ahead log catches a data file plus a
//! log in an unknown relationship: usually recoverable, sometimes not.
//! `VACUUM INTO` writes a self-contained file instead, and it does so against
//! a live database, so the maintenance window can call it before the snapshot
//! rather than shutting the service down.
use crate::text::chars;
use vstd::prelude::*;

verus! {

/// Why there is no export.
#[derive(Debug, Clone, Copy, PartialEq, Eq, Structural)]
pub enum ExportError {
    /// A backup that silently replaces an older backup is the most common way
    /// to end up with two copies of the same damage.
    Exists,
    /// The statement takes a literal, not a bound parameter: the database
    /// allows no placeholder there. So the path is looked at instead.
    Unquotable,
}

impl ExportError {
    pub open spec fn text(self, path: Seq<char>) -> Seq<char> {
        match self {
            ExportError::Exists => path + " already exists"@,
            ExportError::Unquotable => "target path must not contain a quote or a null byte"@,
        }
    }

    pub fn message(self, path: &str) -> (r: String)
        ensures
            r@ == self.text(path@),
    {
        match self {
            ExportError::Exists => path.to_owned().concat(" already exists"),
            ExportError::Unquotable =>
                "target path must not contain a quote or a null byte".to_owned(),
        }
    }
}

/// Can this path stand between two quotes? Neither a quote nor a null byte is
/// in it.
pub open spec fn quotable(path: Seq<char>) -> bool {
    !path.contains('\'') && !path.contains('\0')
}

/// The statement that writes the backup to `path`, unless something is there.
pub fn export(path: &str, exists: bool) -> (r: Result<String, ExportError>)
    ensures
        match r {
            Ok(statement) => !exists && quotable(path@) && statement@ == "VACUUM INTO '"@ + path@
                + "'"@,
            Err(ExportError::Exists) => exists,
            Err(ExportError::Unquotable) => !exists && !quotable(path@),
        },
{
    if exists {
        return Err(ExportError::Exists);
    }
    let all = chars(path);
    let mut i: usize = 0;
    while i < all.len()
        invariant
            i <= all@.len(),
            all@ == path@,
            !exists,
            forall|k: int| 0 <= k < i ==> (#[trigger] path@[k]) != '\'' && path@[k] != '\0',
        decreases all@.len() - i,
    {
        if all[i] == '\'' || all[i] == '\0' {
            assert(path@[i as int] == '\'' || path@[i as int] == '\0');
            return Err(ExportError::Unquotable);
        }
        i += 1;
    }
    Ok("VACUUM INTO '".to_owned().concat(path).concat("'"))
}

/// The path cannot end the literal it is put in: the statement holds two
/// quotes, one at each end of the path.
pub proof fn the_path_stays_quoted(path: Seq<char>, i: int)
    requires
        quotable(path),
        0 <= i < ("VACUUM INTO '"@ + path + "'"@).len(),
        ("VACUUM INTO '"@ + path + "'"@)[i] == '\'',
    ensures
        i == 12 || i == 13 + path.len(),
{
    reveal_strlit("VACUUM INTO '");
    reveal_strlit("'");
    let front = "VACUUM INTO '"@;
    let statement = front + path + "'"@;
    if i < 13 {
        assert(statement[i] == front[i]);
    } else if i < 13 + path.len() {
        assert(statement[i] == path[i - 13]);
        assert(path.contains('\''));
    }
}

} // verus!
