//! Verified reader and writer for Pioneer Rekordbox device exports (the
//! DeviceSQL `export.pdb` / `exportExt.pdb` databases).

pub mod codec;
pub mod pdb;
pub mod util;

use vstd::prelude::*;

verus! {

} // verus!
