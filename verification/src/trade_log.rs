//! An append-only CSV log of fills.
//!
//! Rows are collected in memory. A flush writes the log with the rows behind it
//! to a temporary file, and then puts that file in the log's place in a single
//! step, so that the log never holds a part of the rows. The file operations are
//! the caller's: this module says what is to be written, which operation is
//! next, and what its outcome means for the rows. A log has one writer at a
//! time.
use crate::arithmetic;
use crate::arithmetic::Arithmetic;
use crate::double::Double;
use crate::text;
use std::path::{Path, PathBuf};
use vstd::prelude::*;

verus! {

/// A path of the file system.
#[verifier::external_type_specification]
#[verifier::external_body]
pub struct ExPathBuf(PathBuf);

/// A path of the file system, borrowed.
#[verifier::external_type_specification]
#[verifier::external_body]
pub struct ExPath(Path);

/// The path of a name below a directory.
pub uninterp spec fn joined(dir: &Path, name: Seq<char>) -> PathBuf;

/// Calls `Path::join`. Claimed of it: the path depends on the directory and the
/// name alone.
#[verifier::external_body]
fn join(dir: &Path, name: &str) -> (r: PathBuf)
    ensures
        r == joined(dir, name@),
{
    dir.join(name)
}

/// The first line of a log.
pub open spec fn header_text() -> Seq<char> {
    "timestamp,symbol,side,price,size,level,position_after,realized_pnl,available_capital,portfolio_value,simulated\n"@
}

/// The first line of a log.
pub fn header() -> (r: &'static str)
    ensures
        r@ == header_text(),
{
    "timestamp,symbol,side,price,size,level,position_after,realized_pnl,available_capital,portfolio_value,simulated\n"
}

/// How a row's time is written.
pub open spec fn time_pattern() -> Seq<char> {
    "%Y-%m-%dT%H:%M:%S%.3fZ"@
}

/// A time in UTC, given in milliseconds since 1970, written after a pattern,
/// where the calendar reaches that far.
pub uninterp spec fn utc_text(millis: i64, pattern: Seq<char>) -> Option<Seq<char>>;

/// Calls `chrono::DateTime::from_timestamp_millis` and `DateTime::format`.
/// Claimed of them: what is written depends on the time and the pattern alone.
#[verifier::external_body]
fn format_utc(millis: i64, pattern: &str) -> (r: Option<String>)
    requires
        pattern@ == time_pattern(),
    ensures
        match r {
            Some(s) => utc_text(millis, pattern@) == Some(s@),
            None => utc_text(millis, pattern@) is None,
        },
{
    chrono::DateTime::from_timestamp_millis(millis).map(|t| t.format(pattern).to_string())
}

/// Calls `chrono::Utc::now`. Claimed of it: the time, whatever it is, is one
/// that the calendar reaches, as the round trip through milliseconds that
/// `chrono` guarantees gives it.
///
/// A clock that stands before 1970 makes `Utc::now` panic. That rests on the
/// machine, and no condition on the arguments rules it out.
#[verifier::external_body]
fn now_millis() -> (r: i64)
    ensures
        utc_text(r, time_pattern()) is Some,
{
    chrono::Utc::now().timestamp_millis()
}

/// One fill.
#[derive(Clone, Copy, Debug)]
pub struct Fill {
    pub price: Double,
    pub size: Double,
    pub level: usize,
    pub position_after: Double,
    pub realized_pnl: Double,
    pub available_capital: Double,
    pub portfolio_value: Double,
    pub simulated: bool,
}

/// The numbers of a fill as they are written.
pub struct FillTexts {
    pub price: Seq<char>,
    pub size: Seq<char>,
    pub position_after: Seq<char>,
    pub realized_pnl: Seq<char>,
    pub available_capital: Seq<char>,
    pub portfolio_value: Seq<char>,
}

/// `t` holds the numbers of a fill, each with the decimals of its column.
pub open spec fn writes_numbers<A: Arithmetic>(ops: &A, fill: Fill, t: FillTexts) -> bool {
    &&& arithmetic::is_fixed(ops, fill.price, 10, t.price)
    &&& arithmetic::is_fixed(ops, fill.size, 6, t.size)
    &&& arithmetic::is_fixed(ops, fill.position_after, 6, t.position_after)
    &&& arithmetic::is_fixed(ops, fill.realized_pnl, 4, t.realized_pnl)
    &&& arithmetic::is_fixed(ops, fill.available_capital, 2, t.available_capital)
    &&& arithmetic::is_fixed(ops, fill.portfolio_value, 2, t.portfolio_value)
}

/// Fields with commas between them and a line break behind them.
pub open spec fn csv_line(fields: Seq<Seq<char>>) -> Seq<char>
    decreases fields.len(),
{
    if fields.len() == 0 {
        seq!['\n']
    } else if fields.len() == 1 {
        fields[0] + seq!['\n']
    } else {
        fields[0] + seq![','] + csv_line(fields.skip(1))
    }
}

/// The columns of a row, in the order of the header.
pub open spec fn row_fields(
    time: Seq<char>,
    symbol: Seq<char>,
    side: Seq<char>,
    fill: Fill,
    t: FillTexts,
) -> Seq<Seq<char>> {
    seq![
        time,
        symbol,
        side,
        t.price,
        t.size,
        text::decimal(fill.level as nat),
        t.position_after,
        t.realized_pnl,
        t.available_capital,
        t.portfolio_value,
        if fill.simulated {
            "true"@
        } else {
            "false"@
        },
    ]
}

/// `row` is a line for a fill.
pub open spec fn is_row<A: Arithmetic>(
    ops: &A,
    time: Seq<char>,
    symbol: Seq<char>,
    side: Seq<char>,
    fill: Fill,
    row: Seq<char>,
) -> bool {
    exists|t: FillTexts| #[trigger]
        writes_numbers(ops, fill, t) && row == csv_line(row_fields(time, symbol, side, fill, t))
}

/// `after` is `before` with one more row.
pub open spec fn adds_row<A: Arithmetic>(
    ops: &A,
    time: Seq<char>,
    symbol: Seq<char>,
    side: Seq<char>,
    fill: Fill,
    before: Seq<u8>,
    after: Seq<u8>,
) -> bool {
    exists|row: Seq<char>| #[trigger]
        is_row(ops, time, symbol, side, fill, row) && after == before + vstd::utf8::encode_utf8(row)
}

/// What a flush does next.
#[derive(Clone, Copy, Debug, PartialEq, Eq, Structural)]
pub enum FlushStage {
    /// Write the log with the rows behind it to the temporary file.
    WriteTemp,
    /// Put the temporary file in the log's place.
    ReplaceLog,
    /// Nothing: the rows are in the log.
    Finished,
    /// Nothing: an operation failed, and its error is the flush's.
    Abandoned,
}

/// The stage that follows, by the outcome of the operation.
pub open spec fn stage_after(stage: FlushStage, succeeded: bool) -> FlushStage {
    match stage {
        FlushStage::WriteTemp => if succeeded {
            FlushStage::ReplaceLog
        } else {
            FlushStage::Abandoned
        },
        FlushStage::ReplaceLog => if succeeded {
            FlushStage::Finished
        } else {
            FlushStage::Abandoned
        },
        FlushStage::Finished => FlushStage::Finished,
        FlushStage::Abandoned => FlushStage::Abandoned,
    }
}

/// The rows that are still to be flushed after an operation.
pub open spec fn rows_after(stage: FlushStage, succeeded: bool, rows: Seq<u8>) -> Seq<u8> {
    if stage == FlushStage::ReplaceLog && succeeded {
        Seq::empty()
    } else {
        rows
    }
}

/// What the deletion of a log does next.
#[derive(Clone, Copy, Debug, PartialEq, Eq, Structural)]
pub enum ClearStage {
    /// Remove the log.
    RemoveLog,
    /// Write a new log that holds the header.
    WriteHeader,
    /// Nothing: the log holds the header alone.
    Finished,
    /// Nothing: an operation failed, and its error is the deletion's.
    Abandoned,
}

/// The stage that follows, by the outcome of the operation.
pub open spec fn clear_stage_after(stage: ClearStage, succeeded: bool) -> ClearStage {
    match stage {
        ClearStage::RemoveLog => if succeeded {
            ClearStage::WriteHeader
        } else {
            ClearStage::Abandoned
        },
        ClearStage::WriteHeader => if succeeded {
            ClearStage::Finished
        } else {
            ClearStage::Abandoned
        },
        ClearStage::Finished => ClearStage::Finished,
        ClearStage::Abandoned => ClearStage::Abandoned,
    }
}

/// The next stage of a deletion, after the operation of a stage has come to an
/// end.
pub fn continue_clear(stage: ClearStage, succeeded: bool) -> (r: ClearStage)
    ensures
        r == clear_stage_after(stage, succeeded),
{
    match stage {
        ClearStage::RemoveLog => if succeeded {
            ClearStage::WriteHeader
        } else {
            ClearStage::Abandoned
        },
        ClearStage::WriteHeader => if succeeded {
            ClearStage::Finished
        } else {
            ClearStage::Abandoned
        },
        ClearStage::Finished => ClearStage::Finished,
        ClearStage::Abandoned => ClearStage::Abandoned,
    }
}

/// A log needs its header written where there is no file, or one that is empty
/// or whose length cannot be read.
pub open spec fn lacks_header(present: bool, len: Option<u64>) -> bool {
    !present || len is None || len == Some(0u64)
}

/// Whether a log needs its header written: where there is no file, or one that
/// is empty or whose length cannot be read.
pub fn needs_header(present: bool, len: Option<u64>) -> (r: bool)
    ensures
        r == lacks_header(present, len),
{
    !present || match len {
        Some(n) => n == 0,
        None => true,
    }
}

/// The name of the log of a symbol.
pub open spec fn log_name(symbol: Seq<char>) -> Seq<char> {
    "trades_"@ + symbol + ".csv"@
}

/// The name of the log of a symbol.
pub fn file_name(symbol: &str) -> (r: String)
    ensures
        r@ == log_name(symbol@),
{
    let mut name = "trades_".to_owned();
    name.append(symbol);
    name.append(".csv");
    name
}

/// The name of the temporary file of a process.
pub fn temp_file_name(process_id: u32) -> (r: String)
    ensures
        r@ == ".tmp_trades_"@ + text::decimal(process_id as nat),
{
    let mut name = ".tmp_trades_".to_owned();
    text::append_decimal(&mut name, process_id as u64);
    name
}

/// Buffered CSV trade logger: rows are only ever added behind the log, all of
/// those that are buffered at once or none.
pub struct TradeLogger {
    path: PathBuf,
    symbol: String,
    /// Rows that are not yet in the log.
    buffer: Vec<u8>,
}

impl TradeLogger {
    /// Where the log is.
    pub closed spec fn log_path(self) -> PathBuf {
        self.path
    }

    pub closed spec fn symbol(self) -> Seq<char> {
        self.symbol@
    }

    /// The rows that are not yet in the log.
    pub closed spec fn rows(self) -> Seq<u8> {
        self.buffer@
    }

    /// A logger for the log of a symbol in a directory.
    pub fn new(log_dir: &Path, symbol: &str) -> (r: TradeLogger)
        ensures
            r.log_path() == joined(log_dir, log_name(symbol@)),
            r.symbol() == symbol@,
            r.rows() == Seq::<u8>::empty(),
    {
        let name = file_name(symbol);
        TradeLogger {
            path: join(log_dir, name.as_str()),
            symbol: symbol.to_owned(),
            buffer: Vec::with_capacity(4096),
        }
    }

    pub fn path(&self) -> (r: &PathBuf)
        ensures
            *r == self.log_path(),
    {
        &self.path
    }

    /// The rows that are not yet in the log.
    pub fn pending(&self) -> (r: &Vec<u8>)
        ensures
            r@ == self.rows(),
    {
        &self.buffer
    }

    /// Buffer a row for a fill, with the time as it is written.
    pub fn log_row<A: Arithmetic>(&mut self, ops: &A, time: &str, side: &str, fill: Fill)
        ensures
            final(self).log_path() == old(self).log_path(),
            final(self).symbol() == old(self).symbol(),
            adds_row(
                ops,
                time@,
                old(self).symbol(),
                side@,
                fill,
                old(self).rows(),
                final(self).rows(),
            ),
    {
        let price = ops.fixed(fill.price, 10);
        let size = ops.fixed(fill.size, 6);
        let position_after = ops.fixed(fill.position_after, 6);
        let realized_pnl = ops.fixed(fill.realized_pnl, 4);
        let available_capital = ops.fixed(fill.available_capital, 2);
        let portfolio_value = ops.fixed(fill.portfolio_value, 2);
        let mut level = String::new();
        text::append_decimal(&mut level, fill.level as u64);
        let simulated = if fill.simulated {
            "true"
        } else {
            "false"
        };

        let mut row = time.to_owned();
        append_field(&mut row, self.symbol.as_str());
        append_field(&mut row, side);
        append_field(&mut row, price.as_str());
        append_field(&mut row, size.as_str());
        append_field(&mut row, level.as_str());
        append_field(&mut row, position_after.as_str());
        append_field(&mut row, realized_pnl.as_str());
        append_field(&mut row, available_capital.as_str());
        append_field(&mut row, portfolio_value.as_str());
        append_field(&mut row, simulated);
        row.append("\n");

        let bytes = row.as_str().as_bytes();
        self.buffer.extend_from_slice(bytes);
        proof {
            reveal_strlit("\n");
            let t = FillTexts {
                price: price@,
                size: size@,
                position_after: position_after@,
                realized_pnl: realized_pnl@,
                available_capital: available_capital@,
                portfolio_value: portfolio_value@,
            };
            assert(writes_numbers(ops, fill, t));
            let fields = row_fields(time@, old(self).symbol@, side@, fill, t);
            lemma_line_of_eleven(fields);
            assert(row@ =~= csv_line(fields));
            assert(is_row(ops, time@, old(self).symbol(), side@, fill, row@));
            assert(self.buffer@ =~= old(self).buffer@ + vstd::utf8::encode_utf8(row@));
        }
    }

    /// Buffer a row for a fill at a time, where the calendar reaches that far.
    pub fn log_fill_at<A: Arithmetic>(
        &mut self,
        ops: &A,
        millis: i64,
        side: &str,
        fill: Fill,
    ) -> (logged: bool)
        ensures
            final(self).log_path() == old(self).log_path(),
            final(self).symbol() == old(self).symbol(),
            logged == (utc_text(millis, time_pattern()) is Some),
            logged ==> adds_row(
                ops,
                utc_text(millis, time_pattern())->0,
                old(self).symbol(),
                side@,
                fill,
                old(self).rows(),
                final(self).rows(),
            ),
            !logged ==> final(self).rows() == old(self).rows(),
    {
        match format_utc(millis, "%Y-%m-%dT%H:%M:%S%.3fZ") {
            Some(time) => {
                self.log_row(ops, time.as_str(), side, fill);
                true
            },
            None => false,
        }
    }

    /// Buffer one fill row (no disk I/O), stamped with the time of the call.
    #[allow(clippy::too_many_arguments)]
    pub fn log_fill<A: Arithmetic>(
        &mut self,
        ops: &A,
        side: &str,
        price: Double,
        size: Double,
        level: usize,
        position_after: Double,
        realized_pnl: Double,
        available_capital: Double,
        portfolio_value: Double,
        simulated: bool,
    )
        ensures
            final(self).log_path() == old(self).log_path(),
            final(self).symbol() == old(self).symbol(),
            exists|millis: i64| #[trigger]
                utc_text(millis, time_pattern()) is Some && adds_row(
                    ops,
                    utc_text(millis, time_pattern())->0,
                    old(self).symbol(),
                    side@,
                    (Fill {
                        price,
                        size,
                        level,
                        position_after,
                        realized_pnl,
                        available_capital,
                        portfolio_value,
                        simulated,
                    }),
                    old(self).rows(),
                    final(self).rows(),
                ),
    {
        let fill = Fill {
            price,
            size,
            level,
            position_after,
            realized_pnl,
            available_capital,
            portfolio_value,
            simulated,
        };
        let millis = now_millis();
        let _logged = self.log_fill_at(ops, millis, side, fill);
    }

    /// Begins a flush, with its first stage; without rows there is nothing to do.
    pub fn flush(&self) -> (r: FlushStage)
        ensures
            r == if self.rows().len() == 0 {
                FlushStage::Finished
            } else {
                FlushStage::WriteTemp
            },
    {
        if self.buffer.is_empty() {
            FlushStage::Finished
        } else {
            FlushStage::WriteTemp
        }
    }

    /// What a flush writes to the temporary file, given what the log holds: the
    /// same with the rows behind it.
    pub fn with_rows(&self, log: &[u8]) -> (r: Vec<u8>)
        ensures
            r@ == log@ + self.rows(),
    {
        let mut out: Vec<u8> = Vec::new();
        out.extend_from_slice(log);
        out.extend_from_slice(self.buffer.as_slice());
        assert(out@ =~= log@ + self.buffer@);
        out
    }

    /// The next stage of a flush, after the operation of a stage has come to an
    /// end. The rows are dropped only once the log has them.
    pub fn continue_flush(&mut self, stage: FlushStage, succeeded: bool) -> (r: FlushStage)
        ensures
            r == stage_after(stage, succeeded),
            final(self).rows() == rows_after(stage, succeeded, old(self).rows()),
            final(self).log_path() == old(self).log_path(),
            final(self).symbol() == old(self).symbol(),
    {
        match stage {
            FlushStage::WriteTemp => if succeeded {
                FlushStage::ReplaceLog
            } else {
                FlushStage::Abandoned
            },
            FlushStage::ReplaceLog => if succeeded {
                self.buffer.clear();
                FlushStage::Finished
            } else {
                FlushStage::Abandoned
            },
            FlushStage::Finished => FlushStage::Finished,
            FlushStage::Abandoned => FlushStage::Abandoned,
        }
    }

    /// Begins the deletion of the log, with its first stage. The rows that are
    /// not yet in the log are forgotten at once.
    pub fn clear(&mut self, present: bool) -> (r: ClearStage)
        ensures
            final(self).rows() == Seq::<u8>::empty(),
            final(self).log_path() == old(self).log_path(),
            final(self).symbol() == old(self).symbol(),
            r == if present {
                ClearStage::RemoveLog
            } else {
                ClearStage::WriteHeader
            },
    {
        self.buffer.clear();
        if present {
            ClearStage::RemoveLog
        } else {
            ClearStage::WriteHeader
        }
    }
}

/// Writes a comma and a field.
fn append_field(row: &mut String, field: &str)
    ensures
        final(row)@ == old(row)@ + seq![','] + field@,
{
    proof {
        reveal_strlit(",");
    }
    row.append(",");
    row.append(field);
    assert(row@ =~= old(row)@ + seq![','] + field@);
}

/// A line of eleven fields, written out.
pub proof fn lemma_line_of_eleven(f: Seq<Seq<char>>)
    requires
        f.len() == 11,
    ensures
        csv_line(f) == f[0] + seq![','] + f[1] + seq![','] + f[2] + seq![','] + f[3] + seq![',']
            + f[4] + seq![','] + f[5] + seq![','] + f[6] + seq![','] + f[7] + seq![','] + f[8]
            + seq![','] + f[9] + seq![','] + f[10] + seq!['\n'],
{
    reveal_with_fuel(csv_line, 12);
    assert forall|i: int, j: int| 0 <= i && 0 <= j && i + j <= f.len() implies
        #[trigger] f.skip(i).skip(j) =~= f.skip(i + j) by {}
    assert(csv_line(f) =~= f[0] + seq![','] + f[1] + seq![','] + f[2] + seq![','] + f[3] + seq![',']
        + f[4] + seq![','] + f[5] + seq![','] + f[6] + seq![','] + f[7] + seq![','] + f[8] + seq![
        ','
    ] + f[9] + seq![','] + f[10] + seq!['\n']);
}

/// The names of the columns.
pub open spec fn header_fields() -> Seq<Seq<char>> {
    seq![
        "timestamp"@,
        "symbol"@,
        "side"@,
        "price"@,
        "size"@,
        "level"@,
        "position_after"@,
        "realized_pnl"@,
        "available_capital"@,
        "portfolio_value"@,
        "simulated"@,
    ]
}

/// The header is a line of its own that names as many columns as a row has.
pub proof fn law_header_names_every_column(
    time: Seq<char>,
    symbol: Seq<char>,
    side: Seq<char>,
    fill: Fill,
    t: FillTexts,
)
    ensures
        header_text() == csv_line(header_fields()),
        row_fields(time, symbol, side, fill, t).len() == header_fields().len(),
{
    reveal_strlit("timestamp,symbol,side,price,size,level,position_after,realized_pnl,available_capital,portfolio_value,simulated\n");
    reveal_strlit("timestamp");
    reveal_strlit("symbol");
    reveal_strlit("side");
    reveal_strlit("price");
    reveal_strlit("size");
    reveal_strlit("level");
    reveal_strlit("position_after");
    reveal_strlit("realized_pnl");
    reveal_strlit("available_capital");
    reveal_strlit("portfolio_value");
    reveal_strlit("simulated");
    lemma_line_of_eleven(header_fields());
    assert(header_text() =~= csv_line(header_fields()));
}

/// The files that a flush and a deletion work on, each with its bytes where it
/// is there.
pub struct Files {
    pub log: Option<Seq<u8>>,
    pub temp: Option<Seq<u8>>,
}

impl Files {
    /// The bytes of the log, none where there is no file.
    pub open spec fn log_bytes(self) -> Seq<u8> {
        match self.log {
            Some(bytes) => bytes,
            None => Seq::empty(),
        }
    }

    /// The files after `k` bytes of a flush's temporary file have been written.
    pub open spec fn temp_written(self, rows: Seq<u8>, k: nat) -> Files {
        Files { temp: Some((self.log_bytes() + rows).take(k as int)), ..self }
    }

    /// The files after the temporary one has taken the log's place.
    pub open spec fn log_replaced(self) -> Files {
        Files { log: self.temp, temp: None }
    }

    pub open spec fn log_removed(self) -> Files {
        Files { log: None, ..self }
    }

    pub open spec fn header_written(self) -> Files {
        Files { log: Some(vstd::utf8::encode_utf8(header_text())), ..self }
    }
}

/// The files after a log has been opened, given the length that was read of it,
/// where one could be read: the header is written where the log lacks it.
pub open spec fn files_after_open(f: Files, len: Option<u64>) -> Files {
    if lacks_header(f.log is Some, len) {
        f.header_written()
    } else {
        f
    }
}

/// A log that has been opened is the header alone where it was missing or empty,
/// and as it was otherwise; so it is never empty. Opening it again changes
/// nothing.
pub proof fn law_opened_log_has_header(f: Files)
    requires
        f.log_bytes().len() <= u64::MAX,
    ensures
        f.log is None || f.log_bytes().len() == 0 ==> files_after_open(
            f,
            Some(f.log_bytes().len() as u64),
        ) == f.header_written(),
        f.log is Some && f.log_bytes().len() > 0 ==> files_after_open(
            f,
            Some(f.log_bytes().len() as u64),
        ) == f,
        files_after_open(f, Some(f.log_bytes().len() as u64)).log is Some,
        files_after_open(f, Some(f.log_bytes().len() as u64)).log_bytes().len() > 0,
        ({
            let opened = files_after_open(f, Some(f.log_bytes().len() as u64));
            opened.log_bytes().len() <= u64::MAX ==> files_after_open(
                opened,
                Some(opened.log_bytes().len() as u64),
            ) == opened
        }),
{
    lemma_header_is_not_empty();
}

proof fn lemma_header_is_not_empty()
    ensures
        vstd::utf8::encode_utf8(header_text()).len() > 0,
{
    reveal_strlit("timestamp,symbol,side,price,size,level,position_after,realized_pnl,available_capital,portfolio_value,simulated\n");
    let t = header_text();
    assert(t.len() > 0);
    reveal_with_fuel(vstd::utf8::encode_utf8, 2);
}

/// How far the operations of a flush came, whether it ran to its end or was cut
/// off.
pub struct FlushCourse {
    /// How many bytes of the temporary file were written.
    pub bytes_written: nat,
    /// Whether the write came to its end without an error.
    pub written: bool,
    /// Whether the temporary file took the log's place.
    pub replaced: bool,
}

/// A course that the operations can take: a write that succeeds has written all
/// bytes. That one file takes the place of another in a single step, and does
/// not where an error is reported, is what a file system's renaming gives.
pub open spec fn can_happen(f: Files, rows: Seq<u8>, c: FlushCourse) -> bool {
    &&& c.bytes_written <= f.log_bytes().len() + rows.len()
    &&& c.written ==> c.bytes_written == f.log_bytes().len() + rows.len()
}

/// The files after a flush of some rows.
pub open spec fn files_after_flush(f: Files, rows: Seq<u8>, c: FlushCourse) -> Files {
    let second = stage_after(FlushStage::WriteTemp, c.written);
    if second == FlushStage::ReplaceLog && c.replaced {
        f.temp_written(rows, c.bytes_written).log_replaced()
    } else {
        f.temp_written(rows, c.bytes_written)
    }
}

/// The stage a flush of some rows ends in.
pub open spec fn end_of_flush(c: FlushCourse) -> FlushStage {
    stage_after(stage_after(FlushStage::WriteTemp, c.written), c.replaced)
}

/// The rows that a flush of some rows leaves in the buffer.
pub open spec fn rows_after_flush(rows: Seq<u8>, c: FlushCourse) -> Seq<u8> {
    rows_after(
        stage_after(FlushStage::WriteTemp, c.written),
        c.replaced,
        rows_after(FlushStage::WriteTemp, c.written, rows),
    )
}

/// The log never holds a part of the rows: however many bytes a write comes to,
/// and wherever a flush fails or is cut off, the log is what it was, or that
/// with all rows behind it.
pub proof fn law_log_is_never_partial(f: Files, rows: Seq<u8>, c: FlushCourse)
    requires
        can_happen(f, rows, c),
    ensures
        files_after_flush(f, rows, c).log_bytes() == f.log_bytes() || files_after_flush(
            f,
            rows,
            c,
        ).log_bytes() == f.log_bytes() + rows,
{
    let all = f.log_bytes() + rows;
    assert(all.take(all.len() as int) =~= all);
}

/// No row is lost or written twice: log and buffer together hold the same bytes
/// after a flush as before. A flush ends well exactly if the log has the rows,
/// and then none are left to flush; otherwise all of them are.
pub proof fn law_flush_keeps_every_row(f: Files, rows: Seq<u8>, c: FlushCourse)
    requires
        can_happen(f, rows, c),
        rows.len() > 0,
    ensures
        files_after_flush(f, rows, c).log_bytes() + rows_after_flush(rows, c) == f.log_bytes()
            + rows,
        end_of_flush(c) == if c.written && c.replaced {
            FlushStage::Finished
        } else {
            FlushStage::Abandoned
        },
        end_of_flush(c) == FlushStage::Finished ==> files_after_flush(f, rows, c).log_bytes()
            == f.log_bytes() + rows && rows_after_flush(rows, c) == Seq::<u8>::empty(),
        end_of_flush(c) == FlushStage::Abandoned ==> files_after_flush(f, rows, c).log == f.log
            && rows_after_flush(rows, c) == rows,
{
    let all = f.log_bytes() + rows;
    assert(all.take(all.len() as int) =~= all);
    assert(all + Seq::<u8>::empty() =~= all);
}

/// The log is touched only after log and rows are safe in the temporary file.
pub proof fn law_replacement_follows_temp_write(stage: FlushStage, succeeded: bool)
    requires
        stage_after(stage, succeeded) == FlushStage::ReplaceLog,
    ensures
        stage == FlushStage::WriteTemp,
        succeeded,
{
}

/// The files after a deletion, by the outcomes of its operations.
pub open spec fn files_after_clear(f: Files, removed: bool, header_written: bool) -> Files {
    let gone = if f.log is Some && removed {
        f.log_removed()
    } else {
        f
    };
    if stage_before_header(f, removed) == ClearStage::WriteHeader && header_written {
        gone.header_written()
    } else {
        gone
    }
}

/// The stage of a deletion once a log that is there has been dealt with.
pub open spec fn stage_before_header(f: Files, removed: bool) -> ClearStage {
    if f.log is Some {
        clear_stage_after(ClearStage::RemoveLog, removed)
    } else {
        ClearStage::WriteHeader
    }
}

/// The stage a deletion ends in.
pub open spec fn end_of_clear(f: Files, removed: bool, header_written: bool) -> ClearStage {
    clear_stage_after(stage_before_header(f, removed), header_written)
}

/// A deletion that ends well leaves the header alone in the log, whatever was
/// there; a second one changes nothing.
pub proof fn law_cleared_log_is_header_alone(f: Files, removed: bool, header_written: bool)
    requires
        end_of_clear(f, removed, header_written) == ClearStage::Finished,
    ensures
        files_after_clear(f, removed, header_written).log == Some(
            vstd::utf8::encode_utf8(header_text()),
        ),
        files_after_clear(f, removed, header_written).temp == f.temp,
        files_after_clear(files_after_clear(f, removed, header_written), true, true)
            == files_after_clear(f, removed, header_written),
{
}

} // verus!
