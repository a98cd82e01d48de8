pub mod api;
pub mod bitmap;
pub mod exceptions;
pub mod interrupts;
pub mod layout;
pub mod mmu;
pub mod page_alloc;
pub mod user;
pub mod usermode;
pub mod virtio;
