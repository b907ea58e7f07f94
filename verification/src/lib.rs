//! Storage topology of a Windows machine, as a library of pure decisions:
//! it builds the requests that are put to the system and interprets what the
//! system answers. The calls themselves are made by the program that uses it.

pub mod win32;
