//! Bit-packed license application records, the licensee text codec and the
//! license fee schedule.

pub mod error;
pub mod fees;
pub mod hex;
pub mod layout;
pub mod licensee;
pub mod models;
pub mod packing;
pub mod text;
pub mod uint256;

pub use error::{CustomError, LookupError, ValidationError};
pub use fees::{calculate_license_fee, permit_key};
pub use layout::{bitmask, bitpos, field_layout, AppField, FieldLayout};
pub use licensee::{Licensee, LicenseeRaw, Timestamp};
pub use models::Pagination;
pub use packing::{pack, pack_application, pack_data, unpack, ApplicationRecord, PackedWords};
pub use uint256::Uint256;
