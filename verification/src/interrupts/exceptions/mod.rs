//! CPU exceptions: the report each one prints, and the page-fault handler's
//! decisions (stack overflow on a guard page, demand paging in a demand
//! region, a full diagnostic otherwise).

pub mod init;
