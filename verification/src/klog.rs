//! Kernel log: levels, and the byte stream sent to the UART, where every
//! '\n' goes out as "\r\n".
use vstd::prelude::*;

verus! {

/// Severity of a log line, most severe first.
#[derive(Clone, Copy, Debug, PartialEq, Eq, Structural)]
pub enum Level {
    Error,
    Wrn,
    Inf,
    Dbg,
}

/// Lines up to this level are printed (all of them).
pub const KLOG_LEVEL: u8 = 3;

/// Numeric value of a level (0 for errors .. 3 for debug).
pub open spec fn level_value(l: Level) -> u8 {
    match l {
        Level::Error => 0,
        Level::Wrn => 1,
        Level::Inf => 2,
        Level::Dbg => 3,
    }
}

impl Level {
    /// The three-letter tag of the level.
    pub fn as_str(self) -> (r: &'static str)
        ensures
            self == Level::Dbg ==> r@ == "DBG"@,
            self == Level::Inf ==> r@ == "INF"@,
            self == Level::Wrn ==> r@ == "WRN"@,
            self == Level::Error ==> r@ == "ERR"@,
    {
        match self {
            Level::Dbg => "DBG",
            Level::Inf => "INF",
            Level::Wrn => "WRN",
            Level::Error => "ERR",
        }
    }

    /// The level's numeric value.
    pub fn value(self) -> (r: u8)
        ensures
            r == level_value(self),
    {
        match self {
            Level::Error => 0,
            Level::Wrn => 1,
            Level::Inf => 2,
            Level::Dbg => 3,
        }
    }

    /// Lines of this level are printed.
    pub fn enabled(self) -> (r: bool)
        ensures
            r == (level_value(self) <= KLOG_LEVEL),
    {
        self.value() <= KLOG_LEVEL
    }
}

/// The UART bytes for `s`: each '\n' preceded by '\r'.
pub open spec fn crlf(s: Seq<u8>) -> Seq<u8>
    decreases s.len(),
{
    if s.len() == 0 {
        Seq::empty()
    } else {
        crlf(s.drop_last()) + crlf_byte(s.last())
    }
}

/// The UART bytes for one byte.
pub open spec fn crlf_byte(c: u8) -> Seq<u8> {
    if c == 0x0au8 {
        seq![0x0du8, 0x0au8]
    } else {
        seq![c]
    }
}

/// The bytes sent for the string `s`.
pub fn puts(s: &[u8]) -> (r: Vec<u8>)
    ensures
        r@ == crlf(s@),
{
    let mut out: Vec<u8> = Vec::new();
    let mut i: usize = 0;
    while i < s.len()
        invariant
            i <= s@.len(),
            out@ == crlf(s@.take(i as int)),
        decreases s@.len() - i,
    {
        let b = s[i];
        if b == 0x0au8 {
            out.push(0x0du8);
        }
        out.push(b);
        proof {
            assert(s@.take(i + 1).drop_last() =~= s@.take(i as int));
        }
        i += 1;
        assert(out@ =~= crlf(s@.take(i as int)));
    }
    assert(s@.take(s@.len() as int) =~= s@);
    out
}

/// The bytes sent for the byte `c`.
pub fn putc(c: u8) -> (r: Vec<u8>)
    ensures
        r@ == crlf_byte(c),
{
    let mut out: Vec<u8> = Vec::new();
    if c == 0x0au8 {
        out.push(0x0du8);
    }
    out.push(c);
    assert(out@ =~= crlf_byte(c));
    out
}


/// The three-letter tag of a level, as bytes.
pub open spec fn level_tag(l: Level) -> Seq<u8> {
    match l {
        Level::Error => seq![0x45u8, 0x52u8, 0x52u8],
        Level::Wrn => seq![0x57u8, 0x52u8, 0x4eu8],
        Level::Inf => seq![0x49u8, 0x4eu8, 0x46u8],
        Level::Dbg => seq![0x44u8, 0x42u8, 0x47u8],
    }
}

/// The text of a log line: "[LVL] tag: message" and a newline.
pub open spec fn line_text(l: Level, tag: Seq<u8>, msg: Seq<u8>) -> Seq<u8> {
    seq![0x5bu8] + level_tag(l) + seq![0x5du8, 0x20u8] + tag + seq![0x3au8, 0x20u8] + msg + seq![0x0au8]
}

/// The UART bytes of a log line of level `level` with tag `tag` and the
/// formatted message `msg`; nothing for a level above `KLOG_LEVEL`.
pub fn emit(level: Level, tag: &[u8], msg: &[u8]) -> (r: Vec<u8>)
    ensures
        level_value(level) > KLOG_LEVEL ==> r@ == Seq::<u8>::empty(),
        level_value(level) <= KLOG_LEVEL ==> r@ == crlf(line_text(level, tag@, msg@)),
{
    if !level.enabled() {
        return Vec::new();
    }
    let mut text: Vec<u8> = Vec::new();
    text.push(0x5bu8);
    let lv: Vec<u8> = match level {
        Level::Error => vec![0x45u8, 0x52u8, 0x52u8],
        Level::Wrn => vec![0x57u8, 0x52u8, 0x4eu8],
        Level::Inf => vec![0x49u8, 0x4eu8, 0x46u8],
        Level::Dbg => vec![0x44u8, 0x42u8, 0x47u8],
    };
    assert(lv@ =~= level_tag(level));
    text.extend_from_slice(lv.as_slice());
    text.push(0x5du8);
    text.push(0x20u8);
    text.extend_from_slice(tag);
    text.push(0x3au8);
    text.push(0x20u8);
    text.extend_from_slice(msg);
    text.push(0x0au8);
    assert(text@ =~= line_text(level, tag@, msg@));
    puts(text.as_slice())
}

} // verus!
