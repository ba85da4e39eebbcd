//! Verified core of the AIC Android compiler: DEX encodings, the register
//! assembler, the AIC language front end, the optimizer, resource and
//! manifest encoders, and APK packaging.
pub mod apk;
pub mod encoding;
pub mod integrity;
pub mod ir;
pub mod lir;
pub mod lower;
pub mod opt;
pub mod res;
pub mod text;
pub mod writer;
