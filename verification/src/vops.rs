//! Path mutations through the VFS: `mkdir`, `unlink` and `rmdir` reach the
//! root ext2 filesystem; the virtual trees (`/proc`, `/dev`, `/ram`) refuse
//! them.

use vstd::prelude::*;
use vstd::string::StringSliceAdditionalSpecFns;
use crate::ext2::Ext2Error;
use crate::ext2_write::stamp;
use crate::text::{has_prefix, starts_with, bytes_eq, trimmed};
use crate::vcore::{Vfs, VfsError};

verus! {

/// `p` names `/proc`, `/dev` or `/ram` or something under them.
pub open spec fn virtual_path(p: Seq<u8>) -> bool {
    ||| p == "/proc".spec_bytes()
    ||| has_prefix(p, "/proc/".spec_bytes())
    ||| p == "/dev".spec_bytes()
    ||| has_prefix(p, "/dev/".spec_bytes())
    ||| p == "/ram".spec_bytes()
    ||| has_prefix(p, "/ram/".spec_bytes())
}

/// Is a mutation of `p` from working directory `cwd` refused? It is under a
/// virtual tree, or the working directory is virtual.
pub open spec fn refused(p: Seq<u8>, cwd: u32) -> bool {
    virtual_path(p) || cwd >= 0xF000_0000
}

/// Refuse mutations under the virtual trees, and any while the working
/// directory is virtual.
pub fn refuse_virtual_mut(path: &str, cwd: u32) -> (r: Result<(), VfsError>)
    ensures
        r == (if refused(path.spec_bytes(), cwd) { Err::<(), VfsError>(VfsError::Inval) } else { Ok::<(), VfsError>(()) }),
{
    let p = path.as_bytes();
    if bytes_eq(p, "/proc".as_bytes()) || starts_with(p, "/proc/".as_bytes()) || bytes_eq(p, "/dev".as_bytes())
        || starts_with(p, "/dev/".as_bytes()) || bytes_eq(p, "/ram".as_bytes()) || starts_with(p, "/ram/".as_bytes()) {
        return Err(VfsError::Inval);
    }
    if crate::vcore::is_virtual_ino(cwd) {
        return Err(VfsError::Inval);
    }
    Ok(())
}

/// The errno-like error `mkdir` reports for an ext2 failure.
pub open spec fn mkdir_err_spec(e: Ext2Error) -> VfsError {
    match e {
        Ext2Error::Exists => VfsError::Exist,
        Ext2Error::NotDirectory => VfsError::NotDir,
        _ => VfsError::Fault,
    }
}

/// The error `unlink` reports for an ext2 failure.
pub open spec fn unlink_err_spec(e: Ext2Error) -> VfsError {
    match e {
        Ext2Error::IsDirectory => VfsError::IsDir,
        Ext2Error::NotFound => VfsError::NoEnt,
        _ => VfsError::Fault,
    }
}

/// The error `rmdir` reports for an ext2 failure.
pub open spec fn rmdir_err_spec(e: Ext2Error) -> VfsError {
    match e {
        Ext2Error::NotDirectory => VfsError::NotDir,
        Ext2Error::NotEmpty => VfsError::NotEmpty,
        Ext2Error::NotFound => VfsError::NoEnt,
        _ => VfsError::Fault,
    }
}

fn mkdir_err(e: Ext2Error) -> (r: VfsError)
    ensures
        r == mkdir_err_spec(e),
{
    match e {
        Ext2Error::Exists => VfsError::Exist,
        Ext2Error::NotDirectory => VfsError::NotDir,
        _ => VfsError::Fault,
    }
}

fn unlink_err(e: Ext2Error) -> (r: VfsError)
    ensures
        r == unlink_err_spec(e),
{
    match e {
        Ext2Error::IsDirectory => VfsError::IsDir,
        Ext2Error::NotFound => VfsError::NoEnt,
        _ => VfsError::Fault,
    }
}

fn rmdir_err(e: Ext2Error) -> (r: VfsError)
    ensures
        r == rmdir_err_spec(e),
{
    match e {
        Ext2Error::NotDirectory => VfsError::NotDir,
        Ext2Error::NotEmpty => VfsError::NotEmpty,
        Ext2Error::NotFound => VfsError::NoEnt,
        _ => VfsError::Fault,
    }
}

/// Create the directory `path` from working directory `cwd`.
pub fn vfs_mkdir(vfs: &mut Vfs, cwd: u32, path: &str, ticks: u64) -> (r: Result<(), VfsError>)
    requires
        old(vfs).wf(),
    ensures
        final(vfs).keeps_tables(old(vfs)),
        final(vfs).ram_view() == old(vfs).ram_view(),
        if refused(path.spec_bytes(), cwd) {
            r == Err::<(), VfsError>(VfsError::Inval) && final(vfs).root_fs() == old(vfs).root_fs()
        } else if !old(vfs).root_fs().is_mounted() {
            r == Err::<(), VfsError>(VfsError::NoEnt) && final(vfs).root_fs() == old(vfs).root_fs()
        } else {
            exists|x: Result<u32, Ext2Error>|
                #[trigger] old(vfs).root_fs().mkdir_ok(final(vfs).root_fs(), x, cwd, trimmed(path.spec_bytes()), stamp(ticks))
                    && r == match x {
                    Ok(_) => Ok::<(), VfsError>(()),
                    Err(e) => Err(mkdir_err_spec(e)),
                }
        },
{
    proof {
        vfs.lemma_same_refl();
    }
    match refuse_virtual_mut(path, cwd) {
        Err(e) => return Err(e),
        Ok(()) => {},
    }
    if !vfs.fs().mounted() {
        return Err(VfsError::NoEnt);
    }
    match vfs.root_mkdir(cwd, path, ticks) {
        Ok(_) => Ok(()),
        Err(e) => Err(mkdir_err(e)),
    }
}

/// Remove the file `path` from working directory `cwd`.
pub fn vfs_unlink(vfs: &mut Vfs, cwd: u32, path: &str, ticks: u64) -> (r: Result<(), VfsError>)
    requires
        old(vfs).wf(),
    ensures
        final(vfs).keeps_tables(old(vfs)),
        final(vfs).ram_view() == old(vfs).ram_view(),
        if refused(path.spec_bytes(), cwd) {
            r == Err::<(), VfsError>(VfsError::Inval) && final(vfs).root_fs() == old(vfs).root_fs()
        } else if !old(vfs).root_fs().is_mounted() {
            r == Err::<(), VfsError>(VfsError::NoEnt) && final(vfs).root_fs() == old(vfs).root_fs()
        } else {
            exists|x: Result<(), Ext2Error>|
                #[trigger] old(vfs).root_fs().unlink_ok(final(vfs).root_fs(), x, cwd, trimmed(path.spec_bytes()), stamp(ticks))
                    && r == match x {
                    Ok(_) => Ok::<(), VfsError>(()),
                    Err(e) => Err(unlink_err_spec(e)),
                }
        },
{
    proof {
        vfs.lemma_same_refl();
    }
    match refuse_virtual_mut(path, cwd) {
        Err(e) => return Err(e),
        Ok(()) => {},
    }
    if !vfs.fs().mounted() {
        return Err(VfsError::NoEnt);
    }
    match vfs.root_unlink(cwd, path, ticks) {
        Ok(_) => Ok(()),
        Err(e) => Err(unlink_err(e)),
    }
}

/// Remove the empty directory `path` from working directory `cwd`.
pub fn vfs_rmdir(vfs: &mut Vfs, cwd: u32, path: &str, ticks: u64) -> (r: Result<(), VfsError>)
    requires
        old(vfs).wf(),
    ensures
        final(vfs).keeps_tables(old(vfs)),
        final(vfs).ram_view() == old(vfs).ram_view(),
        if refused(path.spec_bytes(), cwd) {
            r == Err::<(), VfsError>(VfsError::Inval) && final(vfs).root_fs() == old(vfs).root_fs()
        } else if !old(vfs).root_fs().is_mounted() {
            r == Err::<(), VfsError>(VfsError::NoEnt) && final(vfs).root_fs() == old(vfs).root_fs()
        } else {
            exists|x: Result<(), Ext2Error>|
                #[trigger] old(vfs).root_fs().rmdir_ok(final(vfs).root_fs(), x, cwd, trimmed(path.spec_bytes()), stamp(ticks))
                    && r == match x {
                    Ok(_) => Ok::<(), VfsError>(()),
                    Err(e) => Err(rmdir_err_spec(e)),
                }
        },
{
    proof {
        vfs.lemma_same_refl();
    }
    match refuse_virtual_mut(path, cwd) {
        Err(e) => return Err(e),
        Ok(()) => {},
    }
    if !vfs.fs().mounted() {
        return Err(VfsError::NoEnt);
    }
    match vfs.root_rmdir(cwd, path, ticks) {
        Ok(_) => Ok(()),
        Err(e) => Err(rmdir_err(e)),
    }
}

/// Short text for a VFS error.
pub fn vfs_err_str(e: VfsError) -> (r: &'static str)
    ensures
        r@ == (match e {
            VfsError::NoEnt => "not found"@,
            VfsError::IsDir => "is a directory"@,
            VfsError::NotDir => "not a directory"@,
            VfsError::NotEmpty => "directory not empty"@,
            VfsError::Inval => "bad name"@,
            VfsError::Exist => "exists"@,
            VfsError::Loop => "too many symlinks"@,
            _ => "fault"@,
        }),
{
    match e {
        VfsError::NoEnt => "not found",
        VfsError::IsDir => "is a directory",
        VfsError::NotDir => "not a directory",
        VfsError::NotEmpty => "directory not empty",
        VfsError::Inval => "bad name",
        VfsError::Exist => "exists",
        VfsError::Loop => "too many symlinks",
        VfsError::Fault | VfsError::NoDev | VfsError::NoMem => "fault",
    }
}

} // verus!
