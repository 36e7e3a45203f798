use vstd::prelude::*;

use crate::analyser::Analyser;
use crate::message::{Message, MessageType};
use crate::records::MatchState;
use crate::sendprop::{PropSchema, ServerClass};

verus! {

/// A single-pass consumer of a capture's decoded stream. It sees the send
/// tables once, before anything else, then every message it asks for and
/// every string-table entry, in tick order, and yields its output once at
/// the end.
pub trait MessageHandler: Sized {
    type Output;

    /// Whether the handler wants messages of this kind.
    fn does_handle(message_type: MessageType) -> bool;

    /// The send tables and server classes of the capture.
    fn handle_data_tables(&mut self, tables: &Vec<PropSchema>, server_classes: &Vec<ServerClass>);

    /// One message, at `tick`.
    fn handle_message(&mut self, message: &Message, tick: u32);

    /// One entry of string table `table`, at `index`, with its extra data.
    fn handle_string_entry(&mut self, table: &str, index: usize, data: Option<&Vec<u8>>);

    /// The output, at the end of the stream.
    fn into_output(self) -> Self::Output;
}

impl MessageHandler for Analyser {
    type Output = MatchState;

    fn does_handle(message_type: MessageType) -> bool {
        Analyser::does_handle(message_type)
    }

    fn handle_data_tables(&mut self, tables: &Vec<PropSchema>, server_classes: &Vec<ServerClass>) {
        Analyser::handle_data_tables(self, tables, server_classes)
    }

    fn handle_message(&mut self, message: &Message, tick: u32) {
        Analyser::handle_message(self, message, tick)
    }

    fn handle_string_entry(&mut self, table: &str, index: usize, data: Option<&Vec<u8>>) {
        Analyser::handle_string_entry(self, table, index, data)
    }

    fn into_output(self) -> MatchState {
        Analyser::into_output(self)
    }
}

} // verus!
