//! Where the interpreter writes what 「表示」 shows, and where it reads
//! modules from.  Both are supplied by the embedding program.
use vstd::prelude::*;
use std::io::Write;
use crate::text::{push_char, push_str};

verus! {

/// A destination for the lines that 「表示」 writes.
pub trait OutputSink {
    /// Whether the sink keeps a record of the lines written to it.
    spec fn keeps_record(&self) -> bool;

    /// The lines written to the sink so far, when it keeps a record.
    spec fn lines_written(&self) -> Seq<Seq<char>>;

    /// Writes one line; the sink adds the line break.
    fn write_line(&mut self, s: &str)
        ensures
            final(self).keeps_record() == old(self).keeps_record(),
            old(self).keeps_record() ==> final(self).lines_written() == old(self).lines_written().push(s@);
}

/// Writes `s` and a line break to the standard output (std's `writeln!` on
/// `std::io::stdout()`); a failed write is ignored.  Nothing is claimed.
#[verifier::external_body]
fn write_stdout_line(s: &str) {
    let _ = writeln!(std::io::stdout(), "{}", s);
}

/// The sink of the command line: each line goes to the standard output.
pub struct StdoutSink;

impl OutputSink for StdoutSink {
    open spec fn keeps_record(&self) -> bool {
        false
    }

    open spec fn lines_written(&self) -> Seq<Seq<char>> {
        Seq::empty()
    }

    fn write_line(&mut self, s: &str) {
        write_stdout_line(s);
    }
}

/// A sink that keeps every line in memory, each followed by `\n`.
pub struct BufferSink {
    buffer: String,
    lines: Ghost<Seq<Seq<char>>>,
}

impl View for BufferSink {
    type V = Seq<char>;

    closed spec fn view(&self) -> Seq<char> {
        self.buffer@
    }
}

impl BufferSink {
    /// An empty buffer.
    pub fn new() -> (r: BufferSink)
        ensures
            r@ == Seq::<char>::empty(),
    {
        BufferSink { buffer: String::new(), lines: Ghost(Seq::empty()) }
    }

    /// Everything written so far.
    pub fn contents(&self) -> (r: &str)
        ensures
            r@ == self@,
    {
        self.buffer.as_str()
    }
}

impl Default for BufferSink {
    fn default() -> (r: BufferSink)
        ensures
            r@ == Seq::<char>::empty(),
    {
        BufferSink::new()
    }
}

impl OutputSink for BufferSink {
    open spec fn keeps_record(&self) -> bool {
        true
    }

    closed spec fn lines_written(&self) -> Seq<Seq<char>> {
        self.lines@
    }

    fn write_line(&mut self, s: &str)
        ensures
            final(self)@ == old(self)@ + s@ + seq!['\n'],
    {
        push_str(&mut self.buffer, s);
        push_char(&mut self.buffer, '\n');
        self.lines = Ghost(self.lines@.push(s@));
    }
}

/// std's `RefCell`, which holds a buffer shared with the embedding program.
#[verifier::external_type_specification]
#[verifier::external_body]
#[verifier::reject_recursive_types(T)]
pub struct ExRefCell<T: ?Sized>(std::cell::RefCell<T>);

/// Exchanges `b` with the buffer held by the shared cell, through std's
/// `RefCell::try_borrow_mut`: when the cell can be borrowed, its buffer is
/// returned in `Ok` and `b` takes its place; when it is already borrowed
/// (by the embedding program), `b` is handed back in `Err` and the cell is
/// left as it is.  Never panics.
#[verifier::external_body]
fn exchange_shared(sink: &std::rc::Rc<std::cell::RefCell<BufferSink>>, b: BufferSink) -> (r: Result<BufferSink, BufferSink>)
    ensures
        r matches Err(back) ==> back@ == b@,
{
    match sink.try_borrow_mut() {
        Ok(mut cell) => Ok(std::mem::replace(&mut *cell, b)),
        Err(_) => Err(b),
    }
}

/// A buffer shared with the embedding program, which keeps a clone of the
/// `Rc` to read the output after the run.  While the embedding program
/// holds a borrow of the buffer, lines written are dropped.
impl OutputSink for std::rc::Rc<std::cell::RefCell<BufferSink>> {
    open spec fn keeps_record(&self) -> bool {
        false
    }

    open spec fn lines_written(&self) -> Seq<Seq<char>> {
        Seq::empty()
    }

    fn write_line(&mut self, s: &str) {
        match exchange_shared(self, BufferSink::new()) {
            Ok(mut b) => {
                b.write_line(s);
                let _ = exchange_shared(self, b);
            },
            Err(_) => {},
        }
    }
}

/// A source of module texts for 「含める」 and 「必要」.
pub trait ModuleReader {
    /// The text of the module at `path`, or a description of why it could
    /// not be read.
    fn read_module(&mut self, path: &str) -> Result<String, String>;
}

} // verus!
