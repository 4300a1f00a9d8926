//! The DCC offer parser: reads the inside of a CTCP `DCC` message into an
//! offer value.

use vstd::prelude::*;
use vstd::string::*;
use crate::strutil::{
    all_dec_digits, dec_val, eq_str, parse_dec_u16, parse_dec_u32, parse_dec_u64, split_ws,
    split_ws_spec,
};

verus! {

/// The two DCC offer kinds.
#[derive(Debug, Clone, Copy, PartialEq, Eq, Structural)]
pub enum DccKind {
    Chat,
    Send,
}

/// A parsed DCC offer.
#[derive(Debug, Clone)]
pub struct DccOffer {
    pub kind: DccKind,
    pub filename: Option<String>,
    pub ip: u32,
    pub port: u16,
    pub size: Option<u64>,
}

/// The abstract value of a `DccOffer`.
pub struct DccOfferView {
    pub kind: DccKind,
    pub filename: Option<Seq<char>>,
    pub ip: int,
    pub port: int,
    pub size: Option<int>,
}

impl View for DccOffer {
    type V = DccOfferView;

    open spec fn view(&self) -> DccOfferView {
        DccOfferView {
            kind: self.kind,
            filename: match self.filename {
                Some(f) => Some(f@),
                None => None,
            },
            ip: self.ip as int,
            port: self.port as int,
            size: match self.size {
                Some(s) => Some(s as int),
                None => None,
            },
        }
    }
}

/// Why a DCC offer was rejected.
#[derive(Debug, Clone, Copy, PartialEq, Eq, Structural)]
pub enum DccError {
    Empty,
    NotDcc,
    MissingKind,
    UnknownKind,
    MissingFilename,
    MissingIp,
    MissingPort,
    BadNumber,
}

/// Whether `t` is a decimal number no larger than `max`.
pub open spec fn fits_dec(t: Seq<char>, max: int) -> bool {
    all_dec_digits(t) && dec_val(t) <= max
}

/// The offer encoded by the inside of a CTCP message, token by token:
/// `DCC`, the kind, for `SEND` a file name, then address, port and an
/// optional size.
pub open spec fn parse_dcc_spec(s: Seq<char>) -> Result<DccOfferView, DccError> {
    let toks = split_ws_spec(s);
    if toks.len() == 0 {
        Err(DccError::Empty)
    } else if toks[0] != "DCC"@ {
        Err(DccError::NotDcc)
    } else if toks.len() < 2 {
        Err(DccError::MissingKind)
    } else if toks[1] != "SEND"@ && toks[1] != "CHAT"@ {
        Err(DccError::UnknownKind)
    } else {
        let send = toks[1] == "SEND"@;
        if send && toks.len() < 3 {
            Err(DccError::MissingFilename)
        } else {
            let base: int = if send {
                3
            } else {
                2
            };
            if toks.len() <= base {
                Err(DccError::MissingIp)
            } else if !fits_dec(toks[base], u32::MAX as int) {
                Err(DccError::BadNumber)
            } else if toks.len() <= base + 1 {
                Err(DccError::MissingPort)
            } else if !fits_dec(toks[base + 1], u16::MAX as int) {
                Err(DccError::BadNumber)
            } else {
                Ok(
                    DccOfferView {
                        kind: if send {
                            DccKind::Send
                        } else {
                            DccKind::Chat
                        },
                        filename: if send {
                            Some(toks[2])
                        } else {
                            None
                        },
                        ip: dec_val(toks[base]),
                        port: dec_val(toks[base + 1]),
                        size: if toks.len() > base + 2 && fits_dec(
                            toks[base + 2],
                            u64::MAX as int,
                        ) {
                            Some(dec_val(toks[base + 2]))
                        } else {
                            None
                        },
                    },
                )
            }
        }
    }
}

/// Parse the inside of a CTCP message as a DCC offer, exactly as
/// `parse_dcc_spec` describes: `Ok` on a well-formed offer, the matching
/// error otherwise.
pub fn parse_dcc(ctcp_inner: &str) -> (r: Result<DccOffer, DccError>)
    ensures
        match r {
            Ok(o) => parse_dcc_spec(ctcp_inner@) == Ok::<DccOfferView, DccError>(o@),
            Err(e) => parse_dcc_spec(ctcp_inner@) == Err::<DccOfferView, DccError>(e),
        },
{
    let toks = split_ws(ctcp_inner);
    let n = toks.len();
    if n == 0 {
        return Err(DccError::Empty);
    }
    if !eq_str(toks[0].as_str(), "DCC") {
        return Err(DccError::NotDcc);
    }
    if n < 2 {
        return Err(DccError::MissingKind);
    }
    let send = eq_str(toks[1].as_str(), "SEND");
    if !send && !eq_str(toks[1].as_str(), "CHAT") {
        return Err(DccError::UnknownKind);
    }
    if send && n < 3 {
        return Err(DccError::MissingFilename);
    }
    let base: usize = if send {
        3
    } else {
        2
    };
    if n <= base {
        return Err(DccError::MissingIp);
    }
    let ip = match parse_dec_u32(toks[base].as_str()) {
        Some(v) => v,
        None => {
            return Err(DccError::BadNumber);
        },
    };
    if n <= base + 1 {
        return Err(DccError::MissingPort);
    }
    let port = match parse_dec_u16(toks[base + 1].as_str()) {
        Some(v) => v,
        None => {
            return Err(DccError::BadNumber);
        },
    };
    let size: Option<u64> = if n > base + 2 {
        parse_dec_u64(toks[base + 2].as_str())
    } else {
        None
    };
    let filename: Option<String> = if send {
        Some(toks[2].clone())
    } else {
        None
    };
    let kind = if send {
        DccKind::Send
    } else {
        DccKind::Chat
    };
    let offer = DccOffer { kind, filename, ip, port, size };
    proof {
        let tv = split_ws_spec(ctcp_inner@);
        assert(toks.deep_view() == tv);
        assert(offer@.ip == dec_val(tv[base as int]));
        assert(offer@.port == dec_val(tv[base as int + 1]));
    }
    Ok(offer)
}

} // verus!
