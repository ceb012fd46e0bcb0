//! A virtual machine for the bytecode of a Go compiler.
pub mod bytecode;
pub mod closure;
pub mod content;
pub mod dict;
pub mod effect;
pub mod embed;
pub mod fiber;
pub mod frame;
pub mod laws_basis;
pub mod laws_calls;
pub mod laws_casts;
pub mod laws_channels;
pub mod laws_closure;
pub mod laws_deferred;
pub mod laws_equal;
pub mod laws_flow;
pub mod laws_fractions;
pub mod laws_growth;
pub mod laws_lists;
pub mod laws_literals;
pub mod laws_made;
pub mod laws_maps;
pub mod laws_memory;
pub mod laws_methods;
pub mod laws_notes;
pub mod laws_numbers;
pub mod laws_places;
pub mod laws_ranges;
pub mod laws_refs;
pub mod laws_returns;
pub mod laws_run;
pub mod laws_stores;
pub mod laws_text;
pub mod laws_turns;
pub mod laws_types;
pub mod laws_valid;
pub mod laws_valid_fiber;
pub mod laws_valid_inst;
pub mod laws_valid_make;
pub mod laws_valid_type;
pub mod laws_values;
pub mod laws_words;
pub mod laws_zero;
pub mod machine;
pub mod meta;
pub mod num;
pub mod ops_call;
pub mod ops_make;
pub mod ops_place;
pub mod ops_type;
pub mod ops_word;
pub mod panic;
pub mod place;
pub mod range;
pub mod reply;
pub mod run;
pub mod slices;
pub mod text;
pub mod trap;
pub mod value;
