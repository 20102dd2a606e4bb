pub mod bundle;
pub mod license;
pub mod locate;
pub mod resolve;
pub mod score;
pub mod text;
