//! The data model: tokens produced by the tokenizer, the 34 recognized C0
//! control codes, and the decoded escape commands.

use vstd::prelude::*;

verus! {

/// One token of the input stream: a run of printable text (as UTF-8 bytes), a
/// single C0 control code, or a fully decoded escape command.
#[derive(Debug, Clone, PartialEq, Eq)]
pub enum Token {
    Text(Vec<u8>),
    C0(C0),
    EscapeSequence(EscapeSequence),
}

/// The mathematical model of a [`Token`]: text is abstracted to its byte
/// sequence.
pub enum TokenView {
    Text(Seq<u8>),
    C0(C0),
    EscapeSequence(EscapeSequence),
}

impl View for Token {
    type V = TokenView;

    open spec fn view(&self) -> TokenView {
        match self {
            Token::Text(bytes) => TokenView::Text(bytes@),
            Token::C0(code) => TokenView::C0(*code),
            Token::EscapeSequence(cmd) => TokenView::EscapeSequence(*cmd),
        }
    }
}

/// The C0 control codes: the 32 single-byte controls 0x00..=0x1f, plus space
/// (SP, 0x20) and delete (DEL, 0x7f).
#[derive(Debug, Clone, Copy, PartialEq, Eq, Structural)]
pub enum C0 {
    NUL,
    SOH,
    STX,
    ETX,
    EOT,
    ENQ,
    ACK,
    BEL,
    BS,
    HT,
    LF,
    VT,
    FF,
    CR,
    SO,
    SI,
    DLE,
    DC1,
    DC2,
    DC3,
    DC4,
    NAK,
    SYN,
    ETB,
    CAN,
    EM,
    SUB,
    ESC,
    FS,
    GS,
    RS,
    US,
    SP,
    DEL,
}

/// True of the bytes that name a C0 control code.
pub open spec fn is_c0_byte(b: u8) -> bool {
    b <= 0x20 || b == 0x7f
}

/// The control code named by the byte `b`.
pub open spec fn c0_of_byte(b: u8) -> C0
    recommends
        is_c0_byte(b),
{
    if b == 0x00 {
        C0::NUL
    } else if b == 0x01 {
        C0::SOH
    } else if b == 0x02 {
        C0::STX
    } else if b == 0x03 {
        C0::ETX
    } else if b == 0x04 {
        C0::EOT
    } else if b == 0x05 {
        C0::ENQ
    } else if b == 0x06 {
        C0::ACK
    } else if b == 0x07 {
        C0::BEL
    } else if b == 0x08 {
        C0::BS
    } else if b == 0x09 {
        C0::HT
    } else if b == 0x0a {
        C0::LF
    } else if b == 0x0b {
        C0::VT
    } else if b == 0x0c {
        C0::FF
    } else if b == 0x0d {
        C0::CR
    } else if b == 0x0e {
        C0::SO
    } else if b == 0x0f {
        C0::SI
    } else if b == 0x10 {
        C0::DLE
    } else if b == 0x11 {
        C0::DC1
    } else if b == 0x12 {
        C0::DC2
    } else if b == 0x13 {
        C0::DC3
    } else if b == 0x14 {
        C0::DC4
    } else if b == 0x15 {
        C0::NAK
    } else if b == 0x16 {
        C0::SYN
    } else if b == 0x17 {
        C0::ETB
    } else if b == 0x18 {
        C0::CAN
    } else if b == 0x19 {
        C0::EM
    } else if b == 0x1a {
        C0::SUB
    } else if b == 0x1b {
        C0::ESC
    } else if b == 0x1c {
        C0::FS
    } else if b == 0x1d {
        C0::GS
    } else if b == 0x1e {
        C0::RS
    } else if b == 0x1f {
        C0::US
    } else if b == 0x20 {
        C0::SP
    } else {
        C0::DEL
    }
}

/// Classify a C0 byte as its control code.
pub fn c0_from_byte(b: u8) -> (c: C0)
    requires
        is_c0_byte(b),
    ensures
        c == c0_of_byte(b),
{
    match b {
        0x00 => C0::NUL,
        0x01 => C0::SOH,
        0x02 => C0::STX,
        0x03 => C0::ETX,
        0x04 => C0::EOT,
        0x05 => C0::ENQ,
        0x06 => C0::ACK,
        0x07 => C0::BEL,
        0x08 => C0::BS,
        0x09 => C0::HT,
        0x0a => C0::LF,
        0x0b => C0::VT,
        0x0c => C0::FF,
        0x0d => C0::CR,
        0x0e => C0::SO,
        0x0f => C0::SI,
        0x10 => C0::DLE,
        0x11 => C0::DC1,
        0x12 => C0::DC2,
        0x13 => C0::DC3,
        0x14 => C0::DC4,
        0x15 => C0::NAK,
        0x16 => C0::SYN,
        0x17 => C0::ETB,
        0x18 => C0::CAN,
        0x19 => C0::EM,
        0x1a => C0::SUB,
        0x1b => C0::ESC,
        0x1c => C0::FS,
        0x1d => C0::GS,
        0x1e => C0::RS,
        0x1f => C0::US,
        0x20 => C0::SP,
        _ => C0::DEL,
    }
}

/// The decoded escape commands (control functions), one variant per function,
/// each carrying its numeric parameters.  A parametrized variant is only ever
/// constructed by the grammar from input that matched its exact
/// introducer/terminator pair, with documented defaults filled in for elided
/// parameter fields.  The variants marked "out of grammar" name functions
/// whose multi-parameter shape the grammar does not decode; input in their
/// shape falls through to the tokenizer's ESC-fallback path.
#[derive(Debug, Clone, PartialEq, Eq)]
pub enum EscapeSequence {
    /// `[#@`, default 1: insert characters
    ICH(u32),
    /// `[#A`, default 1: cursor up
    CUU(u32),
    /// `[#B`, default 1: cursor down
    CUD(u32),
    /// `[#C`, default 1: cursor forward
    CUF(u32),
    /// `[#D`, default 1: cursor backward
    CUB(u32),
    /// `[#E`, default 1: cursor to next line
    CNL(u32),
    /// `[#F`, default 1: cursor to previous line
    CPL(u32),
    /// `[#G`, default 1: cursor horizontal position absolute
    CHA(u32),
    /// `[#;#H`, defaults 1;1: cursor position
    CUP(u32, u32),
    /// `[#I`, default 1: cursor horizontal tabulation
    CHT(u32),
    /// `[#J`, default 0: erase in display
    ED(u32),
    /// `[#K`, default 0: erase in line
    EL(u32),
    /// `[#L`, default 0: insert line
    IL(u32),
    /// `[#M`, default 0: delete line
    DL(u32),
    /// `[#N`, default 0: erase in field
    EF(u32),
    /// `[#O`, default 0: erase in qualified area
    EA(u32),
    /// `[#P`, default 1: delete character
    DCH(u32),
    /// `[#Q`, default 0: set editing extent mode
    SEM(u32),
    /// `[R`: cursor position report
    CPR,
    /// `[#S`, default 1: scroll up
    SU(u32),
    /// `[#T`, default 1: scroll down
    SD(u32),
    /// `[#U`, default 1: next page
    NP(u32),
    /// `[#V`, default 1: previous page
    PP(u32),
    /// `[#W`, default 0: cursor tabulation control
    CTC(u32),
    /// `[#X`, default 1: erase character
    ECH(u32),
    /// `[#Y`, default 1: cursor vertical tab
    CVT(u32),
    /// `[#Z`, default 1: cursor back tab
    CBT(u32),
    /// ``[#` ``, default 0: horizontal position absolute
    HPA(u32),
    /// `[#a`, default 0: horizontal position relative
    HPR(u32),
    /// `[#b`, default 1: repeat previous displayable character
    REP(u32),
    /// `[c`: device attributes
    DA,
    /// `[#d`, default 0: vertical position absolute
    VPA(u32),
    /// `[#e`, default 0: vertical position relative
    VPR(u32),
    /// `[#;#f`, defaults 1;1: horizontal and vertical position
    HVP(u32, u32),
    /// `[#g`, default 0: tabulation clear
    TBC(u32),
    /// `[#h`, default 0: set mode
    SM(u32),
    /// `[#i`, default 0: media copy
    MC(u32),
    /// `[#j`, default 0: page format select
    PageFormatSelect(u32),
    /// `[l`: reset mode
    RM,
    /// Set graphics rendition; out of grammar (takes up to five parameters)
    SGR(Vec<u8>),
    /// `[#n`, default 0: device status report
    DSR(u32),
    /// `[#o`, default 0: define area qualification
    DAQ(u32),
    /// Load LEDs; out of grammar (takes many parameters)
    DECLL,
    /// `[#;#r`, defaults 1;1: set top and bottom margins
    DECSTBM(u32, u32),
    /// `[#;#s`, defaults 1;1: set left and right margins
    DECSTRM(u32, u32),
    /// `[#t`, default 66: set physical lines per page
    DECSLPP(u32),
    /// Set horizontal tab stops; out of grammar (takes many parameters)
    DECSHTS,
    /// Set vertical tab stops; out of grammar (takes many parameters)
    DECSVTS,
    /// `[#w`, default 0: set horizontal pitch
    DECSHORP(u32),
    /// Request terminal parameters; out of grammar (takes many parameters)
    DECREQTPARM,
    /// `[#;#y`, defaults 2;1: invoke confidence test
    DECTST(u32, u32),
    /// `[#z`, default 0: set vertical pitch
    DECVERP(u32),
    /// `[#!`, default 0: transmit termination character
    DECTTC(u32),
    /// Protected fields; out of grammar (takes many parameters)
    DECPRO,
    /// `[#~`, default 0: sent by special function keys
    DECKEYS(u32),
    /// Always-ignored delete; out of grammar
    DELETE,
    /// `[# @`, default 1: scroll left
    SL(u32),
    /// `[# A`, default 1: scroll right
    SR(u32),
    /// `[#;# B`, defaults 100;100: graphic size modification
    GSM(u32, u32),
    /// `[# C`, default 720: graphic size selection
    GSS(u32),
    /// `[#;# D`, defaults 0;1: font selection
    FNT(u32, u32),
    /// `[# E`, default 720: thin space specification
    TSS(u32),
    /// `[# F`, default 0: justify
    JFY(u32),
    /// `[#;# G`, defaults 720;720: spacing increment
    SPI(u32, u32),
    /// `[# H`, default 0: quadding on the current line
    QUAD(u32),
}

} // verus!
