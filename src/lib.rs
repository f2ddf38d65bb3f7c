//! Delegated, quantity-bounded custody of assets, and a small order book
//! that draws on it.
pub mod address;
pub mod allowance;
pub mod asking_type;
pub mod bucket;
pub mod decimal;
pub mod error;
pub mod escrow;
pub mod laws;
pub mod mock_dex;
pub mod table;
pub mod token_quantity;

pub use allowance::{AllowanceLifeCycle, AllowanceNfData};
pub use escrow::Escrow;
pub use mock_dex::MockDex;
