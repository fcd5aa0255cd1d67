//! Validation of the command line that configures a scan.
//!
//! The surrounding binary parses the address strings with the platform's
//! address parser and hands the outcomes in as plain values; every decision
//! about the shape of the command line is made and verified here.

use vstd::prelude::*;
use crate::errors::ErrorType;
use crate::errors::get_error_message;
use crate::errors::spec_error_message;
use crate::text::contains_sub;
use crate::text::contains_sub_spec;
use crate::text::parse_u16;
use crate::text::spec_parse_u16;

verus! {

/// A validated scan target, as plain values: the 32-bit form of an IPv4
/// address or the 128-bit form of an IPv6 address.
#[derive(Clone, Copy, Debug, PartialEq, Eq, Structural)]
pub enum Address {
    V4(u32),
    V6(u128),
}

/// The validated configuration of a scan run: the flag that selected it,
/// the target address, and how many concurrent workers to run.
#[derive(Debug)]
pub struct Arguments {
    pub flag: String,
    pub addr: Address,
    pub threads: u16,
}

/// What validating a command line yields: on success the target address, the
/// worker count and the flag text; on failure the kind of error reported.
/// `first_addr` and `third_addr` are the outcomes of parsing the second and
/// fourth argument as an address.
pub open spec fn spec_arguments(
    args: Seq<Seq<char>>,
    first_addr: Option<Address>,
    third_addr: Option<Address>,
) -> Result<(Address, u16, Seq<char>), ErrorType> {
    if args.len() < 2 {
        Err(ErrorType::NotEnough)
    } else if args.len() > 4 {
        Err(ErrorType::TooMany)
    } else {
        match first_addr {
            Some(a) => Ok((a, 4u16, Seq::empty())),
            None => {
                let flag = args[1];
                if contains_sub_spec(flag, "-h"@) || contains_sub_spec(flag, "--help"@) {
                    if args.len() == 2 {
                        Err(ErrorType::Help)
                    } else {
                        Err(ErrorType::TooMany)
                    }
                } else if contains_sub_spec(flag, "-j"@) {
                    if args.len() != 4 {
                        Err(ErrorType::InvalidSyntax)
                    } else {
                        match third_addr {
                            None => Err(ErrorType::NotValidIp),
                            Some(a) => match spec_parse_u16(args[2]) {
                                None => Err(ErrorType::NotValidThreads),
                                Some(t) => if t == 0 {
                                    Err(ErrorType::NotValidThreads)
                                } else {
                                    Ok((a, t, flag))
                                },
                            },
                        }
                    }
                } else {
                    Err(ErrorType::InvalidSyntax)
                }
            },
        }
    }
}

impl Arguments {
    /// Validates a command line.  `args` are the raw arguments, program name
    /// first; `first_addr` and `third_addr` are what the caller's address
    /// parser made of `args[1]` and `args[3]` (`None` where the argument is
    /// absent or not an address).  A worker count of zero is rejected: the
    /// engine requires a positive count.
    pub fn new(
        args: &Vec<String>,
        first_addr: Option<Address>,
        third_addr: Option<Address>,
    ) -> (arguments: Result<Arguments, &'static str>)
        ensures
            match spec_arguments(args@.map_values(|a: String| a@), first_addr, third_addr) {
                Ok(ok) => arguments matches Ok(r) && r.addr == ok.0 && r.threads == ok.1
                    && r.flag@ == ok.2,
                Err(e) => arguments matches Err(msg) && msg@ == spec_error_message(e),
            },
    {
        let ghost gargs = args@.map_values(|a: String| a@);
        if args.len() < 2 {
            return Err(get_error_message(ErrorType::NotEnough));
        }
        if args.len() > 4 {
            return Err(get_error_message(ErrorType::TooMany));
        }
        match first_addr {
            Some(a) => Ok(Arguments { flag: String::new(), addr: a, threads: 4 }),
            None => {
                let flag: String = args[1].clone();
                proof {
                    assert(gargs[1] == args@[1]@);
                }
                if contains_sub(flag.as_str(), "-h") || contains_sub(flag.as_str(), "--help") {
                    if args.len() == 2 {
                        Err(get_error_message(ErrorType::Help))
                    } else {
                        Err(get_error_message(ErrorType::TooMany))
                    }
                } else if contains_sub(flag.as_str(), "-j") {
                    if args.len() != 4 {
                        Err(get_error_message(ErrorType::InvalidSyntax))
                    } else {
                        match third_addr {
                            None => Err(get_error_message(ErrorType::NotValidIp)),
                            Some(a) => {
                                proof {
                                    assert(gargs[2] == args@[2]@);
                                }
                                match parse_u16(args[2].as_str()) {
                                    None => Err(get_error_message(ErrorType::NotValidThreads)),
                                    Some(t) => {
                                        if t == 0 {
                                            Err(get_error_message(ErrorType::NotValidThreads))
                                        } else {
                                            Ok(Arguments { flag, addr: a, threads: t })
                                        }
                                    },
                                }
                            },
                        }
                    }
                } else {
                    Err(get_error_message(ErrorType::InvalidSyntax))
                }
            },
        }
    }
}

} // verus!
