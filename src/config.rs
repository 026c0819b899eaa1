//! Settings of the serial link to the transceiver and their validation.
use vstd::prelude::*;

verus! {

/// The baud rates that the transceiver supports.
pub open spec fn supported_baud_rate(n: u32) -> bool {
    n == 9_600 || n == 14_400 || n == 19_200 || n == 38_400 || n == 57_600 || n == 115_200
}

/// `n` where it is a supported baud rate.
pub fn checked_baud_rate(n: u32) -> (r: Option<u32>)
    ensures
        r == (if supported_baud_rate(n) { Some(n) } else { None::<u32> }),
{
    match n {
        9_600 | 14_400 | 19_200 | 38_400 | 57_600 | 115_200 => Some(n),
        _ => None,
    }
}

/// Bits per character.
#[derive(Clone, Copy, Debug, PartialEq, Eq, Structural)]
pub enum DataBits {
    Five,
    Six,
    Seven,
    Eight,
}

impl DataBits {
    pub open spec fn spec_count(self) -> u8 {
        match self {
            DataBits::Five => 5,
            DataBits::Six => 6,
            DataBits::Seven => 7,
            DataBits::Eight => 8,
        }
    }

    /// The number of bits.
    pub fn count(self) -> (r: u8)
        ensures
            r == self.spec_count(),
    {
        match self {
            DataBits::Five => 5,
            DataBits::Six => 6,
            DataBits::Seven => 7,
            DataBits::Eight => 8,
        }
    }

    /// The setting of `n` bits, for `n` from 5 to 8.
    pub fn from_count(n: u8) -> (r: Option<DataBits>)
        ensures
            match r {
                Some(d) => d.spec_count() == n,
                None => !(5 <= n <= 8),
            },
    {
        match n {
            5 => Some(DataBits::Five),
            6 => Some(DataBits::Six),
            7 => Some(DataBits::Seven),
            8 => Some(DataBits::Eight),
            _ => None,
        }
    }
}

/// Stop bits per character.
#[derive(Clone, Copy, Debug, PartialEq, Eq, Structural)]
pub enum StopBits {
    One,
    Two,
}

impl StopBits {
    pub open spec fn spec_count(self) -> u8 {
        match self {
            StopBits::One => 1,
            StopBits::Two => 2,
        }
    }

    /// The number of stop bits.
    pub fn count(self) -> (r: u8)
        ensures
            r == self.spec_count(),
    {
        match self {
            StopBits::One => 1,
            StopBits::Two => 2,
        }
    }

    /// The setting of `n` stop bits, for `n` of 1 or 2.
    pub fn from_count(n: u8) -> (r: Option<StopBits>)
        ensures
            match r {
                Some(s) => s.spec_count() == n,
                None => n != 1 && n != 2,
            },
    {
        match n {
            1 => Some(StopBits::One),
            2 => Some(StopBits::Two),
            _ => None,
        }
    }
}

/// How the host reaches the transceiver: its USB ids and the line settings
/// of its serial port.
#[derive(Clone, Copy, Debug, PartialEq, Eq, Structural)]
pub struct TransceiverSettings {
    pub vid: u16,
    pub pid: u16,
    pub baud_rate: u32,
    pub data_bits: DataBits,
    pub stop_bits: StopBits,
    pub timeout_ms: u64,
}

impl TransceiverSettings {
    /// Every value is one that the link accepts.
    pub open spec fn valid(self) -> bool {
        supported_baud_rate(self.baud_rate)
    }

    /// Settings from raw values, where each of them is accepted.
    pub fn from_raw(vid: u16, pid: u16, baud_rate: u32, data_bits: u8, stop_bits: u8, timeout_ms: u64) -> (r: Option<TransceiverSettings>)
        ensures
            r is Some <==> (supported_baud_rate(baud_rate) && 5 <= data_bits <= 8 && (stop_bits == 1 || stop_bits == 2)),
            r matches Some(s) ==> s.vid == vid && s.pid == pid && s.baud_rate == baud_rate
                && s.data_bits.spec_count() == data_bits && s.stop_bits.spec_count() == stop_bits
                && s.timeout_ms == timeout_ms,
    {
        let baud_rate = match checked_baud_rate(baud_rate) {
            Some(b) => b,
            None => return None,
        };
        let data_bits = match DataBits::from_count(data_bits) {
            Some(d) => d,
            None => return None,
        };
        let stop_bits = match StopBits::from_count(stop_bits) {
            Some(s) => s,
            None => return None,
        };
        Some(TransceiverSettings { vid, pid, baud_rate, data_bits, stop_bits, timeout_ms })
    }
}

impl Default for TransceiverSettings {
    /// The transceiver board's ids at 115200 baud, 8 data bits, 1 stop bit
    /// and a 10 ms read timeout.
    fn default() -> (r: TransceiverSettings)
        ensures
            r.vid == 0x2341 && r.pid == 0x0043 && r.baud_rate == 115_200,
            r.data_bits == DataBits::Eight && r.stop_bits == StopBits::One,
            r.timeout_ms == 10,
            r.valid(),
    {
        TransceiverSettings {
            vid: 0x2341,
            pid: 0x0043,
            baud_rate: 115_200,
            data_bits: DataBits::Eight,
            stop_bits: StopBits::One,
            timeout_ms: 10,
        }
    }
}

} // verus!
