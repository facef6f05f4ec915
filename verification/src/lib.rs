//! A small RESP (REdis Serialization Protocol) core: a frame decoder, a
//! command interpreter for `PING` and `ECHO`, and the reply encoder.
//!
//! Bytes come in through a [`stream::ByteStream`]. [`decode::decode_value`]
//! turns the frame at its front into a [`value::RespValue`],
//! [`command::interpret_redis_command`] turns that into a
//! [`command::RedisCommand`], and [`command::RedisCommand::encode`] gives the
//! bytes of the reply; [`command::handle_request`] does the three in one
//! call. Each of them is proved to compute what its specification function
//! says, and the modules `laws` and `framing` state what follows from those
//! specifications: that frames decode to what they were made of, that a
//! frame does not depend on what follows it, and what each request is
//! answered by.
pub mod command;
pub mod decimal;
pub mod decode;
pub mod framing;
pub mod laws;
pub mod stream;
pub mod text;
pub mod value;
