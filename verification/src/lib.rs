//! A rules engine for standard chess.
//!
//! Given a board and a move, the engine decides whether the move is legal, makes it, and says
//! where the game then stands: whether it goes on, whether a side is in check, checkmated or
//! stalemated, or whether the position cannot be played on.
//!
//! - [`board`] holds the pieces on their squares.
//! - [`pieces`] generates the moves of each kind of piece, with the squares it attacks, guards
//!   and pins and the path of a check it gives.
//! - [`evaluator`] runs the generator over a whole board and works out the check, the legal
//!   moves and the state of play.
//! - [`game`] validates and makes moves, and [`controller`] is the way in for whoever
//!   supplies them.
//! - [`move_logger`] writes the moves down in algebraic notation.
//! - [`scan_laws`] says what an evaluation means square by square, and [`mirror`] shows that
//!   a position and its mirror image are judged alike.
//! - [`move_input`] and [`render`] read a move from text and write a board as text.

pub mod board;
pub mod config;
pub mod controller;
pub mod evaluator;
pub mod game;
pub mod mirror;
pub mod move_data;
pub mod move_input;
pub mod move_logger;
pub mod move_map;
pub mod piece_move;
pub mod pieces;
pub mod position;
pub mod render;
pub mod scan_laws;
