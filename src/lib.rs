//! Lowering of i18n macro constructs (tagged templates, choice calls and
//! translatable markup) into ICU message strings with value and component maps.

pub mod text;
pub mod values;
pub mod template;
pub mod icu;
pub mod markup;
pub mod builder;
pub mod transform;
