pub mod groups;
pub mod hex_pos;
pub mod packed_idx;
pub mod onoro_state;
pub mod onoro;
pub mod onoro_impl;
pub mod packed_hex_pos;
pub mod error;
pub mod onoro_initialize;
pub mod canonicalize;
pub mod tile_hash;
pub mod const_rand;
pub mod hash;
pub mod canonical_view;
pub mod onoro_view;
pub mod compress;
pub mod move_gen;
pub mod disjoint_sets;
pub mod validate;
pub mod color_print;
pub mod board_printer;
pub mod pawn_list;
pub mod proto;
pub mod pawn_gen;
pub mod util;
pub mod search;
pub mod board_vec_indexer;
pub mod round_trip;
pub mod rotation;
pub mod text;
pub mod test_util;
