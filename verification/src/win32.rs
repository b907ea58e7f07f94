//! The four views of the machine's storage: assigned drive letters, free
//! space, mounted volumes and the physical disk behind a letter or a volume.

pub mod drive_info;
pub mod encoding;
pub mod freespace;
pub mod logical_drives;
pub mod volume;
