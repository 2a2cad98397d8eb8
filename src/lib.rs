//! A library for MTXT, a line-based text form of musical performance data:
//! a parser and formatter for its lines, the transforms over record lists
//! (directive folding and extraction, channel filters, transposition, time
//! offset, note merging, quantization, sorting and grouping), the layout of
//! records as point events in time, and the conversion between record lists
//! and the events of standard MIDI files.

pub mod beat_time;
pub mod decimal;
pub mod file;
pub mod file_format;
pub mod midi;
pub mod midi_tables;
pub mod format;
pub mod note;
pub mod output_record;
pub mod parser;
pub mod process;
pub mod record;
pub mod record_parser;
pub mod smf_export;
pub mod smf_import;
pub mod text;
pub mod ticks;
pub mod transforms;
pub mod transitions;
