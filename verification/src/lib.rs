//! A Markov-chain sentence generator over an interned vocabulary, with the
//! small exercises that grew up beside it: a Caesar cipher, Conway's game of
//! life on a torus and a memoised Fibonacci.

pub mod caesar_crypt;
pub mod chain;
pub mod cleaner;
pub mod life_game;
pub mod munou;
pub mod my_math;
pub mod random;
pub mod session;
pub mod text;
pub mod tokenizer;
pub mod training;
pub mod vocabulary;
pub mod walk;
