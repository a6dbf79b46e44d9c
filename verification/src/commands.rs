//! What the commands of the program decide, apart from their input and
//! output.
pub mod commit;
pub mod fix;
pub mod index;
pub mod list;
pub mod logging;
pub mod util;
