//! Helpers shared by the scanner and the parser.

pub mod char;
pub mod scan_iter;

pub use scan_iter::CmpType;
pub use scan_iter::Newline;
pub use scan_iter::ScanIter;
pub use scan_iter::Terminal;
