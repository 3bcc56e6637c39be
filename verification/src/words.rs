use vstd::prelude::*;

use crate::ascii::{
    ASCII_3,
    ASCII_A,
    ASCII_B,
    ASCII_C,
    ASCII_D,
    ASCII_DASH,
    ASCII_E,
    ASCII_F,
    ASCII_G,
    ASCII_H,
    ASCII_I,
    ASCII_K,
    ASCII_L,
    ASCII_LT,
    ASCII_M,
    ASCII_N,
    ASCII_O,
    ASCII_P,
    ASCII_QUESTION,
    ASCII_R,
    ASCII_S,
    ASCII_T,
    ASCII_U,
    ASCII_UNDERSCORE,
    ASCII_V,
    ASCII_W,
    ASCII_Y,
};

verus! {

/// The word `IN`.
pub const WORD_IN: [u8; 2] = [ASCII_I, ASCII_N];

/// The word `OUT`.
pub const WORD_OUT: [u8; 3] = [ASCII_O, ASCII_U, ASCII_T];

/// The word `LOW`.
pub const WORD_LOW: [u8; 3] = [ASCII_L, ASCII_O, ASCII_W];

/// The word `HIGH`.
pub const WORD_HIGH: [u8; 4] = [ASCII_H, ASCII_I, ASCII_G, ASCII_H];

/// The word `DIR`.
pub const WORD_DIR: [u8; 3] = [ASCII_D, ASCII_I, ASCII_R];

/// The word `PLL`.
pub const WORD_PLL: [u8; 3] = [ASCII_P, ASCII_L, ASCII_L];

/// The word `LSN`.
pub const WORD_LSN: [u8; 3] = [ASCII_L, ASCII_S, ASCII_N];

/// The word `ON`.
pub const WORD_ON: [u8; 2] = [ASCII_O, ASCII_N];

/// The word `OFF`.
pub const WORD_OFF: [u8; 3] = [ASCII_O, ASCII_F, ASCII_F];

/// The word `UNSET`.
pub const WORD_UNSET: [u8; 5] = [ASCII_U, ASCII_N, ASCII_S, ASCII_E, ASCII_T];

/// The word `UNAVAILABLE`.
pub const WORD_UNAVAILABLE: [u8; 11] = [ASCII_U, ASCII_N, ASCII_A, ASCII_V, ASCII_A, ASCII_I, ASCII_L, ASCII_A, ASCII_B, ASCII_L, ASCII_E];

/// The word `OK?`.
pub const WORD_OK: [u8; 3] = [ASCII_O, ASCII_K, ASCII_QUESTION];

/// The word `<3`.
pub const WORD_HEART: [u8; 2] = [ASCII_LT, ASCII_3];

/// The word `ALL`.
pub const WORD_ALL: [u8; 3] = [ASCII_A, ASCII_L, ASCII_L];

/// The word `HAI`.
pub const WORD_HAI: [u8; 3] = [ASCII_H, ASCII_A, ASCII_I];

/// The word `HRU`.
pub const WORD_HRU: [u8; 3] = [ASCII_H, ASCII_R, ASCII_U];

/// The word `MAP`.
pub const WORD_MAP: [u8; 3] = [ASCII_M, ASCII_A, ASCII_P];

/// The word `BYE`.
pub const WORD_BYE: [u8; 3] = [ASCII_B, ASCII_Y, ASCII_E];

/// The word `GET`.
pub const WORD_GET: [u8; 3] = [ASCII_G, ASCII_E, ASCII_T];

/// The word `SET`.
pub const WORD_SET: [u8; 3] = [ASCII_S, ASCII_E, ASCII_T];

/// The word `WYD`.
pub const WORD_WYD: [u8; 3] = [ASCII_W, ASCII_Y, ASCII_D];

/// The word `HII`.
pub const WORD_HII: [u8; 3] = [ASCII_H, ASCII_I, ASCII_I];

/// The word `IAM`.
pub const WORD_IAM: [u8; 3] = [ASCII_I, ASCII_A, ASCII_M];

/// The word `BANK`.
pub const WORD_BANK: [u8; 4] = [ASCII_B, ASCII_A, ASCII_N, ASCII_K];

/// The word `PIN`.
pub const WORD_PIN: [u8; 3] = [ASCII_P, ASCII_I, ASCII_N];

/// The word `OKA`.
pub const WORD_OKA: [u8; 3] = [ASCII_O, ASCII_K, ASCII_A];

/// The word `CYA`.
pub const WORD_CYA: [u8; 3] = [ASCII_C, ASCII_Y, ASCII_A];

/// The word `IDK`.
pub const WORD_IDK: [u8; 3] = [ASCII_I, ASCII_D, ASCII_K];

/// The word `UMM`.
pub const WORD_UMM: [u8; 3] = [ASCII_U, ASCII_M, ASCII_M];

/// The word `HYG`.
pub const WORD_HYG: [u8; 3] = [ASCII_H, ASCII_Y, ASCII_G];

/// The word `BAD_PACKET`.
pub const WORD_BAD_PACKET: [u8; 10] = [ASCII_B, ASCII_A, ASCII_D, ASCII_UNDERSCORE, ASCII_P, ASCII_A, ASCII_C, ASCII_K, ASCII_E, ASCII_T];

/// The word `NO_ROUTE`.
pub const WORD_NO_ROUTE: [u8; 8] = [ASCII_N, ASCII_O, ASCII_UNDERSCORE, ASCII_R, ASCII_O, ASCII_U, ASCII_T, ASCII_E];

/// The word `ROUTE_BUSY`.
pub const WORD_ROUTE_BUSY: [u8; 10] = [ASCII_R, ASCII_O, ASCII_U, ASCII_T, ASCII_E, ASCII_UNDERSCORE, ASCII_B, ASCII_U, ASCII_S, ASCII_Y];

/// The word `ROUTE_DOWN`.
pub const WORD_ROUTE_DOWN: [u8; 10] = [ASCII_R, ASCII_O, ASCII_U, ASCII_T, ASCII_E, ASCII_UNDERSCORE, ASCII_D, ASCII_O, ASCII_W, ASCII_N];

/// The word `-`.
pub const WORD_DASH: [u8; 1] = [ASCII_DASH];

} // verus!
