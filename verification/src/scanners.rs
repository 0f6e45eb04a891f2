pub mod block_scanner;
pub mod closure_scanner;
pub mod eol_scanner;
pub mod regex_scanner;
pub mod scanner;
pub mod scanner_types;
pub mod symbol_scanner;

pub use block_scanner::BlockScanner;
pub use block_scanner::EscapeRule;
pub use closure_scanner::ClosureScanner;
pub use eol_scanner::EolScanner;
pub use regex_scanner::RegexScanner;
pub use scanner::AcceptCallback;
pub use scanner::AcceptStrategy;
pub use scanner::Scanner;
pub use scanner_types::CallbackScanner;
pub use scanner_types::ScannerType;
pub use symbol_scanner::SymbolScanner;
