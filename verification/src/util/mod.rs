pub mod digest;
pub mod math;
pub mod number;

pub use self::digest::Base64Error;
pub use self::digest::DigestUtil;
pub use self::digest::TimeUtil;
pub use self::math::DetailC;
pub use self::math::MathUtil;
pub use self::number::NumberUtil;
