//! Curated lists of target triples, by support tier.

use vstd::prelude::*;
use crate::error::{Error, ErrorView};
use crate::text::str_views;

verus! {

/// The curated support tiers that a filter may select. There is a third
/// tier, which is not curated and cannot be selected.
#[derive(Debug, Clone, Copy, PartialEq, Eq, Structural)]
pub enum Tier {
    One,
    Two,
}

/// The triples of the first tier.
pub open spec fn tier_one() -> Seq<Seq<char>> {
    seq![
        "aarch64-unknown-linux-gnu"@,
        "i686-pc-windows-gnu"@,
        "i686-pc-windows-msvc"@,
        "i686-unknown-linux-gnu"@,
        "x86_64-apple-darwin"@,
        "x86_64-pc-windows-gnu"@,
        "x86_64-pc-windows-msvc"@,
        "x86_64-unknown-linux-gnu"@,
    ]
}

/// The triples that the second tier adds to the first.
pub open spec fn tier_two_only() -> Seq<Seq<char>> {
    seq![
        "aarch64-apple-darwin"@,
        "aarch64-pc-windows-msvc"@,
        "aarch64-unknown-linux-musl"@,
        "arm-unknown-linux-gnueabi"@,
        "arm-unknown-linux-gnueabihf"@,
        "armv7-unknown-linux-gnueabihf"@,
        "mips-unknown-linux-gnu"@,
        "mips64-unknown-linux-gnuabi64"@,
        "mips64el-unknown-linux-gnuabi64"@,
        "mipsel-unknown-linux-gnu"@,
        "powerpc-unknown-linux-gnu"@,
        "powerpc64-unknown-linux-gnu"@,
        "powerpc64le-unknown-linux-gnu"@,
        "riscv64gc-unknown-linux-gnu"@,
        "s390x-unknown-linux-gnu"@,
        "x86_64-unknown-freebsd"@,
        "x86_64-unknown-illumos"@,
        "x86_64-unknown-linux-musl"@,
        "x86_64-unknown-netbsd"@,
    ]
}

impl Tier {
    /// The triples of this tier: the second holds the first and more.
    pub open spec fn spec_targets(self) -> Seq<Seq<char>> {
        match self {
            Tier::One => tier_one(),
            Tier::Two => tier_one() + tier_two_only(),
        }
    }

    /// What `from_str` makes of a text.
    pub open spec fn spec_from_str(s: Seq<char>) -> Result<Tier, ErrorView> {
        if s == "1"@ {
            Ok(Tier::One)
        } else if s == "2"@ {
            Ok(Tier::Two)
        } else {
            Err(ErrorView::InvalidTier(s))
        }
    }

    /// Lists the targets of this tier.
    pub fn targets(&self) -> (r: Vec<&'static str>)
        ensures
            str_views(r@) == self.spec_targets(),
    {
        let mut out: Vec<&'static str> = vec![
            "aarch64-unknown-linux-gnu",
            "i686-pc-windows-gnu",
            "i686-pc-windows-msvc",
            "i686-unknown-linux-gnu",
            "x86_64-apple-darwin",
            "x86_64-pc-windows-gnu",
            "x86_64-pc-windows-msvc",
            "x86_64-unknown-linux-gnu",
        ];
        proof {
            assert(str_views(out@) =~= tier_one());
        }
        match self {
            Tier::One => {},
            Tier::Two => {
                let mut more: Vec<&'static str> = vec![
                    "aarch64-apple-darwin",
                    "aarch64-pc-windows-msvc",
                    "aarch64-unknown-linux-musl",
                    "arm-unknown-linux-gnueabi",
                    "arm-unknown-linux-gnueabihf",
                    "armv7-unknown-linux-gnueabihf",
                    "mips-unknown-linux-gnu",
                    "mips64-unknown-linux-gnuabi64",
                    "mips64el-unknown-linux-gnuabi64",
                    "mipsel-unknown-linux-gnu",
                    "powerpc-unknown-linux-gnu",
                    "powerpc64-unknown-linux-gnu",
                    "powerpc64le-unknown-linux-gnu",
                    "riscv64gc-unknown-linux-gnu",
                    "s390x-unknown-linux-gnu",
                    "x86_64-unknown-freebsd",
                    "x86_64-unknown-illumos",
                    "x86_64-unknown-linux-musl",
                    "x86_64-unknown-netbsd",
                ];
                proof {
                    assert(str_views(more@) =~= tier_two_only());
                }
                let ghost first = out@;
                let ghost second = more@;
                out.append(&mut more);
                proof {
                    assert(out@ == first + second);
                    assert(str_views(out@) =~= tier_one() + tier_two_only());
                }
            },
        }
        out
    }

    /// Reads a tier from its number as text.
    pub fn from_str(s: &str) -> (r: Result<Tier, Error>)
        ensures
            match r {
                Ok(t) => Tier::spec_from_str(s@) == Ok::<Tier, ErrorView>(t),
                Err(e) => Tier::spec_from_str(s@) == Err::<Tier, ErrorView>(e@),
            },
    {
        proof {
            reveal_strlit("1");
            reveal_strlit("2");
        }
        if s.unicode_len() == 1 {
            let c = s.get_char(0);
            if c == '1' {
                assert(s@ =~= "1"@);
                return Ok(Tier::One);
            } else if c == '2' {
                assert(s@ =~= "2"@);
                return Ok(Tier::Two);
            }
        }
        Err(Error::InvalidTier(String::from_str(s)))
    }
}

} // verus!
