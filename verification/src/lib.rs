//! A drive read/write benchmark: the plan of its four tests, the offsets each
//! test transfers, the list of detected drives and the choice of target.
pub mod bench;
pub mod paths;
pub mod disks;
