use vstd::prelude::*;

verus! {

pub const NUMBERS: &'static str = "0123456789";

pub const HEXADECIMAL_LOWERCASE: &'static str = "0123456789abcdef";

pub const HEXADECIMAL_UPPERCASE: &'static str = "0123456789ABCDEF";

pub const LOWERCASE: &'static str = "abcdefghijklmnopqrstuvwxyz";

pub const UPPERCASE: &'static str = "ABCDEFGHIJKLMNOPQRSTUVWXYZ";

pub const NO_DOPPELGANGER: &'static str = "346789AaBbCcDdEeFfGgHhiJjKkLMmNnPpQqRrTtUVWwXxYyz";

pub const ALPHANUMERIC: &'static str = "0123456789AaBbCcDdEeFfGgHhIiJjKkLlMmNnOoPpQqRrSsTtUuVvWwXxYyZz";

pub const URL: &'static str = "0123456789AaBbCcDdEeFfGgHhIiJjKkLlMmNnOoPpQqRrSsTtUuVvWwXxYyZz-_";

pub const BASE64: &'static str = "0123456789AaBbCcDdEeFfGgHhIiJjKkLlMmNnOoPpQqRrSsTtUuVvWwXxYyZz+/";

pub const DEFAULT_ALPHABET: &'static str = ALPHANUMERIC;

} // verus!
