//! Output sinks.

use umor::{BufferSink, OutputSink};

#[test]
fn buffer_sink_accumulates_lines() {
    let mut sink = BufferSink::new();
    sink.write_line("こんにちは");
    sink.write_line("世界");
    assert_eq!(sink.contents(), "こんにちは\n世界\n");
}
