//! Parsers for the parts of Suricata rules: words and marks, numbers, quoted strings,
//! address and port arrays, option values, and the values of simple keywords.
//!
//! A parser takes a text and returns what remains of it together with a value, or a
//! rejection that says what went wrong and where. For each parser `p` there is a
//! function `spec_p` from the characters of the input to the result, and the contract of
//! `p` says that it returns that result on every input.
//!
//! The leaf parsers are those of the `nom` crate (module `leaf`), and numbers are read by
//! `num_traits` and the standard library (module `integer`).
//!
//! What holds of the parsers together is stated and proved in `laws`, `rejections`,
//! `array_laws`, `reading_back`, `number_laws` and `option_laws`.
//! What each parser makes of every input, written as the pieces it is made of, is stated
//! and proved in `forms`, `option_forms` and `array_forms`, and what the models say of the
//! values they stand for in `models`.

pub mod array;
pub mod array_forms;
pub mod array_laws;
pub mod error;
pub mod flowbits;
pub mod forms;
pub mod integer;
pub mod isdataat;
pub mod laws;
pub mod leaf;
pub mod list;
pub mod models;
pub mod number;
pub mod number_laws;
pub mod option_forms;
pub mod option_laws;
pub mod option_value;
pub mod pcre;
pub mod quoted;
pub mod reading_back;
pub mod reference;
pub mod rejections;
pub mod text;
pub mod types;
pub mod words;

pub use array::{check_token_and_add, parse_array, scan_array};
pub use error::{
    nom_message, ErrorKind, IResult, LeafError, NomErrorKind, ParseError, Rejection,
};
pub use flowbits::parse_flowbits;
pub use integer::Integer;
pub use isdataat::parse_isdataat;
pub use list::{metadata, parse_flow};
pub use number::{
    number_digits, number_or_name, number_result, parse_number, parse_number_or_reference,
};
pub use option_value::parse_option_value;
pub use pcre::parse_pcre;
pub use quoted::{parse_content, parse_quoted_string};
pub use reference::parse_reference;
pub use types::{
    ArrayElement, Content, Direction, Flow, FlowbitCommand, Flowbits, IsDataAt, IsDataAtPosition,
    NumberOrReference, Pcre, Reference,
};
pub use words::{
    end_of_options, option_name, options_separator, parse_direction, parse_end_quote, parse_tag,
    parse_token, start_of_options, take_until_whitespace,
};
