//! Frame and channel-configuration value types.

use vstd::prelude::*;

verus! {

/// How a frame is queued for sending on the bus.
#[derive(Clone, Copy, Debug, PartialEq, Eq)]
pub enum SendType {
    Normal,
    SingleShot,
    SelfTest,
    SingleShotSelfTest,
}

/// One CAN message: identifier, timestamp, flags, and up to eight payload
/// bytes, of which only the first `data_len` are meaningful.
#[derive(Clone, Copy, Debug, PartialEq, Eq)]
pub struct Frame {
    pub id: u32,
    pub timestamp: u32,
    pub time_flag: bool,
    pub send_type: SendType,
    pub remote_flag: bool,
    pub extern_flag: bool,
    pub data_len: u8,
    pub data: [u8; 8],
}

impl Frame {
    /// A frame is well formed when its payload length fits the payload array.
    pub open spec fn wf(self) -> bool {
        self.data_len <= 8
    }

    /// The meaningful payload bytes: the first `data_len` bytes of `data`.
    pub open spec fn payload_spec(self) -> Seq<u8> {
        self.data@.take(self.data_len as int)
    }

    /// A fresh data frame with every flag cleared.
    pub fn new(id: u32, data_len: u8, data: [u8; 8]) -> (f: Frame)
        requires
            data_len <= 8,
        ensures
            f.wf(),
            f.id == id,
            f.data_len == data_len,
            f.data@ == data@,
            f.timestamp == 0,
            f.time_flag == false,
            f.send_type == SendType::Normal,
            f.remote_flag == false,
            f.extern_flag == false,
    {
        Frame {
            id,
            timestamp: 0,
            time_flag: false,
            send_type: SendType::Normal,
            remote_flag: false,
            extern_flag: false,
            data_len,
            data,
        }
    }

    /// The payload truncated to `data_len` bytes; bytes past `data_len` are
    /// never read.
    pub fn payload(&self) -> (p: Vec<u8>)
        requires
            self.wf(),
        ensures
            p@ == self.payload_spec(),
    {
        let mut p: Vec<u8> = Vec::new();
        let mut i: usize = 0;
        while i < self.data_len as usize
            invariant
                self.wf(),
                i <= self.data_len as usize,
                p@ == self.data@.take(i as int),
            decreases self.data_len as usize - i,
        {
            proof {
                assert(self.data@.take(i as int + 1)
                    =~= self.data@.take(i as int).push(self.data@[i as int]));
            }
            p.push(self.data[i]);
            i = i + 1;
        }
        p
    }
}

/// A well-formed frame reports a payload of exactly `data_len` bytes, and
/// `data_len` never exceeds eight.
pub proof fn lemma_payload_len(f: Frame)
    requires
        f.wf(),
    ensures
        0 <= f.data_len <= 8,
        f.payload_spec().len() == f.data_len,
        forall|i: int| 0 <= i < f.data_len ==> f.payload_spec()[i] == f.data@[i],
{
}

/// Configuration applied identically to each channel before it is started.
#[derive(Clone, Copy, Debug, PartialEq, Eq)]
pub struct ChannelConfig {
    pub acc_code: u32,
    pub acc_mask: u32,
    pub filter_mode: u8,
    pub timing0: u8,
    pub timing1: u8,
    pub mode: u8,
}

impl ChannelConfig {
    /// The fixed 250 kbps configuration: accept every identifier, single
    /// filter, normal operating mode.
    pub fn bitrate_250k() -> (c: ChannelConfig)
        ensures
            c.acc_code == 0,
            c.acc_mask == 0xFFFF_FFFFu32,
            c.filter_mode == 1,
            c.timing0 == 0x01,
            c.timing1 == 0x1C,
            c.mode == 0,
    {
        ChannelConfig {
            acc_code: 0,
            acc_mask: 0xFFFF_FFFF,
            filter_mode: 1,
            timing0: 0x01,
            timing1: 0x1C,
            mode: 0,
        }
    }
}

} // verus!
