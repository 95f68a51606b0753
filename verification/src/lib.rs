pub mod paging;
pub mod allocator;
pub mod processes;
pub mod threads;
pub mod devices;
pub mod apps;
pub mod startup;
pub mod syscalls;
pub mod library;
