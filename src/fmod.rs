//! Status values and result codes of the audio-event helper process.
use vstd::prelude::*;
use vstd::string::*;

verus! {

/// State of the shared-memory channel between the application and the
/// audio helper.
#[derive(Clone, Copy, PartialEq, Eq, Debug, Structural)]
pub enum StatusCode {
    FailedToInit,
    ParentWriting,
    ParentReading,
    ParentDrop,
    ChildWriting,
    ChildReading,
}

/// A cached reply of the helper, marked dirty until it has been read.
#[derive(Debug)]
pub struct FmodData {
    pub dirty: bool,
    pub content: String,
}

impl FmodData {
    /// Fresh, unread data.
    pub fn new(content: String) -> (r: FmodData)
        ensures
            r.dirty,
            r.content@ == content@,
    {
        FmodData { dirty: true, content }
    }
}

/// Sum of two sizes.
pub fn add(left: usize, right: usize) -> (r: usize)
    requires
        left + right <= usize::MAX,
    ensures
        r == left + right,
{
    left + right
}

/// The fixed probe reply of the helper process.
pub fn t() -> (r: String)
    ensures
        r@ == "111"@,
{
    "111".to_owned()
}

/// Largest result code with a name.
pub const LAST_KNOWN_RESULT: u32 = 95;

/// Name of a known result code (`0..=95`).
pub open spec fn fmod_result_name(code: u32) -> Seq<char> {
    match code {
        0 => "FMOD_RESULT_FMOD_OK"@,
        1 => "FMOD_RESULT_FMOD_ERR_ALREADYLOCKED"@,
        2 => "FMOD_RESULT_FMOD_ERR_BADCOMMAND"@,
        3 => "FMOD_RESULT_FMOD_ERR_CDDA_DRIVERS"@,
        4 => "FMOD_RESULT_FMOD_ERR_CDDA_INIT"@,
        5 => "FMOD_RESULT_FMOD_ERR_CDDA_INVALID_DEVICE"@,
        6 => "FMOD_RESULT_FMOD_ERR_CDDA_NOAUDIO"@,
        7 => "FMOD_RESULT_FMOD_ERR_CDDA_NODEVICES"@,
        8 => "FMOD_RESULT_FMOD_ERR_CDDA_NODISC"@,
        9 => "FMOD_RESULT_FMOD_ERR_CDDA_READ"@,
        10 => "FMOD_RESULT_FMOD_ERR_CHANNEL_ALLOC"@,
        11 => "FMOD_RESULT_FMOD_ERR_CHANNEL_STOLEN"@,
        12 => "FMOD_RESULT_FMOD_ERR_COM"@,
        13 => "FMOD_RESULT_FMOD_ERR_DMA"@,
        14 => "FMOD_RESULT_FMOD_ERR_DSP_CONNECTION"@,
        15 => "FMOD_RESULT_FMOD_ERR_DSP_FORMAT"@,
        16 => "FMOD_RESULT_FMOD_ERR_DSP_NOTFOUND"@,
        17 => "FMOD_RESULT_FMOD_ERR_DSP_RUNNING"@,
        18 => "FMOD_RESULT_FMOD_ERR_DSP_TOOMANYCONNECTIONS"@,
        19 => "FMOD_RESULT_FMOD_ERR_FILE_BAD"@,
        20 => "FMOD_RESULT_FMOD_ERR_FILE_COULDNOTSEEK"@,
        21 => "FMOD_RESULT_FMOD_ERR_FILE_DISKEJECTED"@,
        22 => "FMOD_RESULT_FMOD_ERR_FILE_EOF"@,
        23 => "FMOD_RESULT_FMOD_ERR_FILE_NOTFOUND"@,
        24 => "FMOD_RESULT_FMOD_ERR_FILE_UNWANTED"@,
        25 => "FMOD_RESULT_FMOD_ERR_FORMAT"@,
        26 => "FMOD_RESULT_FMOD_ERR_HTTP"@,
        27 => "FMOD_RESULT_FMOD_ERR_HTTP_ACCESS"@,
        28 => "FMOD_RESULT_FMOD_ERR_HTTP_PROXY_AUTH"@,
        29 => "FMOD_RESULT_FMOD_ERR_HTTP_SERVER_ERROR"@,
        30 => "FMOD_RESULT_FMOD_ERR_HTTP_TIMEOUT"@,
        31 => "FMOD_RESULT_FMOD_ERR_INITIALIZATION"@,
        32 => "FMOD_RESULT_FMOD_ERR_INITIALIZED"@,
        33 => "FMOD_RESULT_FMOD_ERR_INTERNAL"@,
        34 => "FMOD_RESULT_FMOD_ERR_INVALID_ADDRESS"@,
        35 => "FMOD_RESULT_FMOD_ERR_INVALID_FLOAT"@,
        36 => "FMOD_RESULT_FMOD_ERR_INVALID_HANDLE"@,
        37 => "FMOD_RESULT_FMOD_ERR_INVALID_PARAM"@,
        38 => "FMOD_RESULT_FMOD_ERR_INVALID_POSITION"@,
        39 => "FMOD_RESULT_FMOD_ERR_INVALID_SPEAKER"@,
        40 => "FMOD_RESULT_FMOD_ERR_INVALID_SYNCPOINT"@,
        41 => "FMOD_RESULT_FMOD_ERR_INVALID_VECTOR"@,
        42 => "FMOD_RESULT_FMOD_ERR_MAXAUDIBLE"@,
        43 => "FMOD_RESULT_FMOD_ERR_MEMORY"@,
        44 => "FMOD_RESULT_FMOD_ERR_MEMORY_CANTPOINT"@,
        45 => "FMOD_RESULT_FMOD_ERR_MEMORY_SRAM"@,
        46 => "FMOD_RESULT_FMOD_ERR_NEEDS2D"@,
        47 => "FMOD_RESULT_FMOD_ERR_NEEDS3D"@,
        48 => "FMOD_RESULT_FMOD_ERR_NEEDSHARDWARE"@,
        49 => "FMOD_RESULT_FMOD_ERR_NEEDSSOFTWARE"@,
        50 => "FMOD_RESULT_FMOD_ERR_NET_CONNECT"@,
        51 => "FMOD_RESULT_FMOD_ERR_NET_SOCKET_ERROR"@,
        52 => "FMOD_RESULT_FMOD_ERR_NET_URL"@,
        53 => "FMOD_RESULT_FMOD_ERR_NET_WOULD_BLOCK"@,
        54 => "FMOD_RESULT_FMOD_ERR_NOTREADY"@,
        55 => "FMOD_RESULT_FMOD_ERR_OUTPUT_ALLOCATED"@,
        56 => "FMOD_RESULT_FMOD_ERR_OUTPUT_CREATEBUFFER"@,
        57 => "FMOD_RESULT_FMOD_ERR_OUTPUT_DRIVERCALL"@,
        58 => "FMOD_RESULT_FMOD_ERR_OUTPUT_ENUMERATION"@,
        59 => "FMOD_RESULT_FMOD_ERR_OUTPUT_FORMAT"@,
        60 => "FMOD_RESULT_FMOD_ERR_OUTPUT_INIT"@,
        61 => "FMOD_RESULT_FMOD_ERR_OUTPUT_NOHARDWARE"@,
        62 => "FMOD_RESULT_FMOD_ERR_OUTPUT_NOSOFTWARE"@,
        63 => "FMOD_RESULT_FMOD_ERR_PAN"@,
        64 => "FMOD_RESULT_FMOD_ERR_PLUGIN"@,
        65 => "FMOD_RESULT_FMOD_ERR_PLUGIN_INSTANCES"@,
        66 => "FMOD_RESULT_FMOD_ERR_PLUGIN_MISSING"@,
        67 => "FMOD_RESULT_FMOD_ERR_PLUGIN_RESOURCE"@,
        68 => "FMOD_RESULT_FMOD_ERR_PRELOADED"@,
        69 => "FMOD_RESULT_FMOD_ERR_PROGRAMMERSOUND"@,
        70 => "FMOD_RESULT_FMOD_ERR_RECORD"@,
        71 => "FMOD_RESULT_FMOD_ERR_REVERB_INSTANCE"@,
        72 => "FMOD_RESULT_FMOD_ERR_SUBSOUND_ALLOCATED"@,
        73 => "FMOD_RESULT_FMOD_ERR_SUBSOUND_CANTMOVE"@,
        74 => "FMOD_RESULT_FMOD_ERR_SUBSOUND_MODE"@,
        75 => "FMOD_RESULT_FMOD_ERR_SUBSOUNDS"@,
        76 => "FMOD_RESULT_FMOD_ERR_TAGNOTFOUND"@,
        77 => "FMOD_RESULT_FMOD_ERR_TOOMANYCHANNELS"@,
        78 => "FMOD_RESULT_FMOD_ERR_UNIMPLEMENTED"@,
        79 => "FMOD_RESULT_FMOD_ERR_UNINITIALIZED"@,
        80 => "FMOD_RESULT_FMOD_ERR_UNSUPPORTED"@,
        81 => "FMOD_RESULT_FMOD_ERR_UPDATE"@,
        82 => "FMOD_RESULT_FMOD_ERR_VERSION"@,
        83 => "FMOD_RESULT_FMOD_ERR_EVENT_FAILED"@,
        84 => "FMOD_RESULT_FMOD_ERR_EVENT_INFOONLY"@,
        85 => "FMOD_RESULT_FMOD_ERR_EVENT_INTERNAL"@,
        86 => "FMOD_RESULT_FMOD_ERR_EVENT_MAXSTREAMS"@,
        87 => "FMOD_RESULT_FMOD_ERR_EVENT_MISMATCH"@,
        88 => "FMOD_RESULT_FMOD_ERR_EVENT_NAMECONFLICT"@,
        89 => "FMOD_RESULT_FMOD_ERR_EVENT_NOTFOUND"@,
        90 => "FMOD_RESULT_FMOD_ERR_EVENT_NEEDSSIMPLE"@,
        91 => "FMOD_RESULT_FMOD_ERR_EVENT_GUIDCONFLICT"@,
        92 => "FMOD_RESULT_FMOD_ERR_EVENT_ALREADY_LOADED"@,
        93 => "FMOD_RESULT_FMOD_ERR_MUSIC_UNINITIALIZED"@,
        94 => "FMOD_RESULT_FMOD_ERR_MUSIC_NOTFOUND"@,
        95 => "FMOD_RESULT_FMOD_ERR_MUSIC_NOCALLBACK"@,
        _ => Seq::empty(),
    }
}

pub open spec fn digit_char(d: int) -> char {
    if d == 0 {
        '0'
    } else if d == 1 {
        '1'
    } else if d == 2 {
        '2'
    } else if d == 3 {
        '3'
    } else if d == 4 {
        '4'
    } else if d == 5 {
        '5'
    } else if d == 6 {
        '6'
    } else if d == 7 {
        '7'
    } else if d == 8 {
        '8'
    } else {
        '9'
    }
}

/// Decimal digits of `n`, most significant first, without leading zeros.
pub open spec fn decimal(n: nat) -> Seq<char>
    decreases n,
{
    if n < 10 {
        seq![digit_char(n as int)]
    } else {
        decimal(n / 10) + seq![digit_char((n % 10) as int)]
    }
}

/// What `format_fmod_result` gives for a code.
pub open spec fn fmod_result_text(code: u32) -> Seq<char> {
    if code <= LAST_KNOWN_RESULT {
        fmod_result_name(code)
    } else {
        "FMOD_RESULT_FMOD_ERR__UNKNOWN:"@ + decimal(code as nat)
    }
}

fn known_name(code: u32) -> (r: &'static str)
    requires
        code <= LAST_KNOWN_RESULT,
    ensures
        r@ == fmod_result_name(code),
{
    match code {
        0 => "FMOD_RESULT_FMOD_OK",
        1 => "FMOD_RESULT_FMOD_ERR_ALREADYLOCKED",
        2 => "FMOD_RESULT_FMOD_ERR_BADCOMMAND",
        3 => "FMOD_RESULT_FMOD_ERR_CDDA_DRIVERS",
        4 => "FMOD_RESULT_FMOD_ERR_CDDA_INIT",
        5 => "FMOD_RESULT_FMOD_ERR_CDDA_INVALID_DEVICE",
        6 => "FMOD_RESULT_FMOD_ERR_CDDA_NOAUDIO",
        7 => "FMOD_RESULT_FMOD_ERR_CDDA_NODEVICES",
        8 => "FMOD_RESULT_FMOD_ERR_CDDA_NODISC",
        9 => "FMOD_RESULT_FMOD_ERR_CDDA_READ",
        10 => "FMOD_RESULT_FMOD_ERR_CHANNEL_ALLOC",
        11 => "FMOD_RESULT_FMOD_ERR_CHANNEL_STOLEN",
        12 => "FMOD_RESULT_FMOD_ERR_COM",
        13 => "FMOD_RESULT_FMOD_ERR_DMA",
        14 => "FMOD_RESULT_FMOD_ERR_DSP_CONNECTION",
        15 => "FMOD_RESULT_FMOD_ERR_DSP_FORMAT",
        16 => "FMOD_RESULT_FMOD_ERR_DSP_NOTFOUND",
        17 => "FMOD_RESULT_FMOD_ERR_DSP_RUNNING",
        18 => "FMOD_RESULT_FMOD_ERR_DSP_TOOMANYCONNECTIONS",
        19 => "FMOD_RESULT_FMOD_ERR_FILE_BAD",
        20 => "FMOD_RESULT_FMOD_ERR_FILE_COULDNOTSEEK",
        21 => "FMOD_RESULT_FMOD_ERR_FILE_DISKEJECTED",
        22 => "FMOD_RESULT_FMOD_ERR_FILE_EOF",
        23 => "FMOD_RESULT_FMOD_ERR_FILE_NOTFOUND",
        24 => "FMOD_RESULT_FMOD_ERR_FILE_UNWANTED",
        25 => "FMOD_RESULT_FMOD_ERR_FORMAT",
        26 => "FMOD_RESULT_FMOD_ERR_HTTP",
        27 => "FMOD_RESULT_FMOD_ERR_HTTP_ACCESS",
        28 => "FMOD_RESULT_FMOD_ERR_HTTP_PROXY_AUTH",
        29 => "FMOD_RESULT_FMOD_ERR_HTTP_SERVER_ERROR",
        30 => "FMOD_RESULT_FMOD_ERR_HTTP_TIMEOUT",
        31 => "FMOD_RESULT_FMOD_ERR_INITIALIZATION",
        32 => "FMOD_RESULT_FMOD_ERR_INITIALIZED",
        33 => "FMOD_RESULT_FMOD_ERR_INTERNAL",
        34 => "FMOD_RESULT_FMOD_ERR_INVALID_ADDRESS",
        35 => "FMOD_RESULT_FMOD_ERR_INVALID_FLOAT",
        36 => "FMOD_RESULT_FMOD_ERR_INVALID_HANDLE",
        37 => "FMOD_RESULT_FMOD_ERR_INVALID_PARAM",
        38 => "FMOD_RESULT_FMOD_ERR_INVALID_POSITION",
        39 => "FMOD_RESULT_FMOD_ERR_INVALID_SPEAKER",
        40 => "FMOD_RESULT_FMOD_ERR_INVALID_SYNCPOINT",
        41 => "FMOD_RESULT_FMOD_ERR_INVALID_VECTOR",
        42 => "FMOD_RESULT_FMOD_ERR_MAXAUDIBLE",
        43 => "FMOD_RESULT_FMOD_ERR_MEMORY",
        44 => "FMOD_RESULT_FMOD_ERR_MEMORY_CANTPOINT",
        45 => "FMOD_RESULT_FMOD_ERR_MEMORY_SRAM",
        46 => "FMOD_RESULT_FMOD_ERR_NEEDS2D",
        47 => "FMOD_RESULT_FMOD_ERR_NEEDS3D",
        48 => "FMOD_RESULT_FMOD_ERR_NEEDSHARDWARE",
        49 => "FMOD_RESULT_FMOD_ERR_NEEDSSOFTWARE",
        50 => "FMOD_RESULT_FMOD_ERR_NET_CONNECT",
        51 => "FMOD_RESULT_FMOD_ERR_NET_SOCKET_ERROR",
        52 => "FMOD_RESULT_FMOD_ERR_NET_URL",
        53 => "FMOD_RESULT_FMOD_ERR_NET_WOULD_BLOCK",
        54 => "FMOD_RESULT_FMOD_ERR_NOTREADY",
        55 => "FMOD_RESULT_FMOD_ERR_OUTPUT_ALLOCATED",
        56 => "FMOD_RESULT_FMOD_ERR_OUTPUT_CREATEBUFFER",
        57 => "FMOD_RESULT_FMOD_ERR_OUTPUT_DRIVERCALL",
        58 => "FMOD_RESULT_FMOD_ERR_OUTPUT_ENUMERATION",
        59 => "FMOD_RESULT_FMOD_ERR_OUTPUT_FORMAT",
        60 => "FMOD_RESULT_FMOD_ERR_OUTPUT_INIT",
        61 => "FMOD_RESULT_FMOD_ERR_OUTPUT_NOHARDWARE",
        62 => "FMOD_RESULT_FMOD_ERR_OUTPUT_NOSOFTWARE",
        63 => "FMOD_RESULT_FMOD_ERR_PAN",
        64 => "FMOD_RESULT_FMOD_ERR_PLUGIN",
        65 => "FMOD_RESULT_FMOD_ERR_PLUGIN_INSTANCES",
        66 => "FMOD_RESULT_FMOD_ERR_PLUGIN_MISSING",
        67 => "FMOD_RESULT_FMOD_ERR_PLUGIN_RESOURCE",
        68 => "FMOD_RESULT_FMOD_ERR_PRELOADED",
        69 => "FMOD_RESULT_FMOD_ERR_PROGRAMMERSOUND",
        70 => "FMOD_RESULT_FMOD_ERR_RECORD",
        71 => "FMOD_RESULT_FMOD_ERR_REVERB_INSTANCE",
        72 => "FMOD_RESULT_FMOD_ERR_SUBSOUND_ALLOCATED",
        73 => "FMOD_RESULT_FMOD_ERR_SUBSOUND_CANTMOVE",
        74 => "FMOD_RESULT_FMOD_ERR_SUBSOUND_MODE",
        75 => "FMOD_RESULT_FMOD_ERR_SUBSOUNDS",
        76 => "FMOD_RESULT_FMOD_ERR_TAGNOTFOUND",
        77 => "FMOD_RESULT_FMOD_ERR_TOOMANYCHANNELS",
        78 => "FMOD_RESULT_FMOD_ERR_UNIMPLEMENTED",
        79 => "FMOD_RESULT_FMOD_ERR_UNINITIALIZED",
        80 => "FMOD_RESULT_FMOD_ERR_UNSUPPORTED",
        81 => "FMOD_RESULT_FMOD_ERR_UPDATE",
        82 => "FMOD_RESULT_FMOD_ERR_VERSION",
        83 => "FMOD_RESULT_FMOD_ERR_EVENT_FAILED",
        84 => "FMOD_RESULT_FMOD_ERR_EVENT_INFOONLY",
        85 => "FMOD_RESULT_FMOD_ERR_EVENT_INTERNAL",
        86 => "FMOD_RESULT_FMOD_ERR_EVENT_MAXSTREAMS",
        87 => "FMOD_RESULT_FMOD_ERR_EVENT_MISMATCH",
        88 => "FMOD_RESULT_FMOD_ERR_EVENT_NAMECONFLICT",
        89 => "FMOD_RESULT_FMOD_ERR_EVENT_NOTFOUND",
        90 => "FMOD_RESULT_FMOD_ERR_EVENT_NEEDSSIMPLE",
        91 => "FMOD_RESULT_FMOD_ERR_EVENT_GUIDCONFLICT",
        92 => "FMOD_RESULT_FMOD_ERR_EVENT_ALREADY_LOADED",
        93 => "FMOD_RESULT_FMOD_ERR_MUSIC_UNINITIALIZED",
        94 => "FMOD_RESULT_FMOD_ERR_MUSIC_NOTFOUND",
        95 => "FMOD_RESULT_FMOD_ERR_MUSIC_NOCALLBACK",
        _ => "",
    }
}

fn digit_str(d: u32) -> (r: &'static str)
    requires
        d < 10,
    ensures
        r@ == seq![digit_char(d as int)],
{
    if d == 0 {
        proof { reveal_strlit("0"); }
        "0"
    } else if d == 1 {
        proof { reveal_strlit("1"); }
        "1"
    } else if d == 2 {
        proof { reveal_strlit("2"); }
        "2"
    } else if d == 3 {
        proof { reveal_strlit("3"); }
        "3"
    } else if d == 4 {
        proof { reveal_strlit("4"); }
        "4"
    } else if d == 5 {
        proof { reveal_strlit("5"); }
        "5"
    } else if d == 6 {
        proof { reveal_strlit("6"); }
        "6"
    } else if d == 7 {
        proof { reveal_strlit("7"); }
        "7"
    } else if d == 8 {
        proof { reveal_strlit("8"); }
        "8"
    } else {
        proof { reveal_strlit("9"); }
        "9"
    }
}

fn push_decimal(s: &mut String, n: u32)
    ensures
        final(s)@ == old(s)@ + decimal(n as nat),
    decreases n,
{
    if n >= 10 {
        push_decimal(s, n / 10);
    }
    s.append(digit_str(n % 10));
    proof {
        assert(final(s)@ =~= old(s)@ + decimal(n as nat)) by {
            if n >= 10 {
                assert(decimal(n as nat) == decimal((n / 10) as nat) + seq![digit_char((n % 10) as int)]);
            }
        }
    }
}

/// The name of a result code of the audio library, or
/// `FMOD_RESULT_FMOD_ERR__UNKNOWN:<code>` for a code it does not define.
pub fn format_fmod_result(result: u32) -> (r: String)
    ensures
        r@ == fmod_result_text(result),
{
    if result <= LAST_KNOWN_RESULT {
        known_name(result).to_owned()
    } else {
        let mut s = "FMOD_RESULT_FMOD_ERR__UNKNOWN:".to_owned();
        push_decimal(&mut s, result);
        s
    }
}

/// `Ok` for the success code 0, else the code with its name.
pub fn check_result(result: u32) -> (r: Result<(), (u32, String)>)
    ensures
        r is Ok <==> result == 0,
        r matches Err(e) ==> e.0 == result && e.1@ == fmod_result_text(result),
{
    if result == 0 {
        Ok(())
    } else {
        Err((result, format_fmod_result(result)))
    }
}

} // verus!
