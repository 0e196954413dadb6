//! Flash security settings of the STM32H7: the register writes that unlock
//! the flash and its option bytes, the new option-status values that each
//! setting programs, the decoding of the current settings, and the checks on
//! a secure region. Reading and writing the registers is left to the caller.

use vstd::prelude::*;

verus! {

pub const FLASH_OPT_KEY1: u32 = 0x0819_2A3B;
pub const FLASH_OPT_KEY2: u32 = 0x4C5D_6E7F;
pub const FLASH_KEY1: u32 = 0x4567_0123;
pub const FLASH_KEY2: u32 = 0xCDEF_89AB;

pub const FLASH_KEYR1: u32 = 0x5200_2004;
pub const FLASH_CR1: u32 = 0x5200_200C;
pub const FLASH_SR1: u32 = 0x5200_2010;
pub const FLASH_OPT_KEYR: u32 = 0x5200_2008;
pub const FLASH_OPT_CR: u32 = 0x5200_2018;
pub const FLASH_OPTSR_CUR: u32 = 0x5200_201C;
pub const FLASH_OPTSR_PRG: u32 = 0x5200_2020;
pub const FLASH_SCAR_CUR1: u32 = 0x5200_2030;
pub const FLASH_SCAR_PRG1: u32 = 0x5200_2034;

/// Read-out protection field of the option status.
pub const OPTSR_RDP_MASK: u32 = 0x0000_ff00;
/// Security option bit of the option status.
pub const OPTSR_SECURITY: u32 = 0x0020_0000;
/// Bank-swap bit of the option status.
pub const OPTSR_SWAP_BANK: u32 = 0x8000_0000;
/// Read-out protection level 1 (flash unreadable from the debugger).
pub const RDP_LEVEL1: u32 = 0xbb;
/// Read-out protection level 0.
pub const RDP_LEVEL0: u32 = 0xaa;

/// A write of `value` to the register at `addr`.
#[derive(Clone, Copy, Debug, PartialEq, Eq, Structural)]
pub struct RegWrite {
    pub addr: u32,
    pub value: u32,
}

/// The writes that unlock flash bank 1 for erasing: the two keys, in order.
pub fn stmsecure_unlock_flash() -> (r: Vec<RegWrite>)
    ensures
        r@ == seq![RegWrite { addr: FLASH_KEYR1, value: FLASH_KEY1 }, RegWrite { addr: FLASH_KEYR1, value: FLASH_KEY2 }],
{
    let v = vec![RegWrite { addr: FLASH_KEYR1, value: FLASH_KEY1 }, RegWrite { addr: FLASH_KEYR1, value: FLASH_KEY2 }];
    proof {
        assert(v@ =~= seq![RegWrite { addr: FLASH_KEYR1, value: FLASH_KEY1 }, RegWrite { addr: FLASH_KEYR1, value: FLASH_KEY2 }]);
    }
    v
}

/// The writes that unlock the option bytes for programming: the two option
/// keys, in order.
pub fn stmsecure_unlock_option() -> (r: Vec<RegWrite>)
    ensures
        r@ == seq![RegWrite { addr: FLASH_OPT_KEYR, value: FLASH_OPT_KEY1 }, RegWrite { addr: FLASH_OPT_KEYR, value: FLASH_OPT_KEY2 }],
{
    let v = vec![RegWrite { addr: FLASH_OPT_KEYR, value: FLASH_OPT_KEY1 }, RegWrite { addr: FLASH_OPT_KEYR, value: FLASH_OPT_KEY2 }];
    proof {
        assert(v@ =~= seq![RegWrite { addr: FLASH_OPT_KEYR, value: FLASH_OPT_KEY1 }, RegWrite { addr: FLASH_OPT_KEYR, value: FLASH_OPT_KEY2 }]);
    }
    v
}

/// The write that starts programming the option bytes; programming is over
/// once `option_commit_done` holds of `FLASH_OPTSR_CUR`.
pub fn stmsecure_commit_option() -> (r: RegWrite)
    ensures
        r == (RegWrite { addr: FLASH_OPT_CR, value: 2 }),
{
    RegWrite { addr: FLASH_OPT_CR, value: 2 }
}

/// Whether the option bytes are programmed: the busy bit (bit 0) of the
/// current option status is clear.
pub fn option_commit_done(optsr_cur: u32) -> (r: bool)
    ensures
        r == (optsr_cur & 1 == 0),
{
    optsr_cur & 1 == 0
}

/// Whether a bank erase is over: the queue bit (bit 2) of the status is clear.
pub fn bank_erase_done(sr: u32) -> (r: bool)
    ensures
        r == (sr & 4 == 0),
{
    sr & 4 == 0
}

/// The option status with its read-out protection level set to `level`.
pub open spec fn with_rdp(optsr: u32, level: u32) -> u32 {
    (optsr & !OPTSR_RDP_MASK) | (level << 8u32)
}

/// The option-status write that lowers read-out protection to level 0,
/// keeping every other option; it takes effect when committed.
pub fn stmsecure_rdpunset_nocommit(optsr: u32) -> (r: RegWrite)
    ensures
        r.addr == FLASH_OPTSR_PRG,
        r.value == with_rdp(optsr, RDP_LEVEL0),
        r.value & OPTSR_RDP_MASK == 0xaa00,
        r.value & !OPTSR_RDP_MASK == optsr & !OPTSR_RDP_MASK,
{
    let v = (optsr & !0x0000_ff00) | 0x0000_aa00;
    proof {
        assert(v == (optsr & !0x0000_ff00u32) | (0xaau32 << 8u32)) by (bit_vector)
            requires v == (optsr & !0x0000_ff00u32) | 0x0000_aa00u32;
        assert(v & 0x0000_ff00u32 == 0xaa00u32 && v & !0x0000_ff00u32 == optsr & !0x0000_ff00u32) by (bit_vector)
            requires v == (optsr & !0x0000_ff00u32) | 0x0000_aa00u32;
    }
    RegWrite { addr: FLASH_OPTSR_PRG, value: v }
}

/// The option-status write that raises read-out protection to level 1,
/// keeping every other option.
pub fn stmsecure_rdpset_value(optsr: u32) -> (r: RegWrite)
    ensures
        r.addr == FLASH_OPTSR_PRG,
        r.value == with_rdp(optsr, RDP_LEVEL1),
        r.value & OPTSR_RDP_MASK == 0xbb00,
        r.value & !OPTSR_RDP_MASK == optsr & !OPTSR_RDP_MASK,
{
    let v = (optsr & !0x0000_ff00) | 0x0000_bb00;
    proof {
        assert(v == (optsr & !0x0000_ff00u32) | (0xbbu32 << 8u32)) by (bit_vector)
            requires v == (optsr & !0x0000_ff00u32) | 0x0000_bb00u32;
        assert(v & 0x0000_ff00u32 == 0xbb00u32 && v & !0x0000_ff00u32 == optsr & !0x0000_ff00u32) by (bit_vector)
            requires v == (optsr & !0x0000_ff00u32) | 0x0000_bb00u32;
    }
    RegWrite { addr: FLASH_OPTSR_PRG, value: v }
}

/// The option-status write that sets (`on`) or clears the security bit,
/// keeping every other option.
pub fn stmsecure_lockbit_value(optsr: u32, on: bool) -> (r: RegWrite)
    ensures
        r.addr == FLASH_OPTSR_PRG,
        r.value == if on { optsr | OPTSR_SECURITY } else { optsr & !OPTSR_SECURITY },
{
    let v = if on { optsr | 0x20_0000 } else { optsr & !0x20_0000 };
    RegWrite { addr: FLASH_OPTSR_PRG, value: v }
}

/// The option-status write that swaps the flash banks: the swap bit flipped,
/// every other option kept.
pub fn stmsecure_swapbanks_value(optsr: u32) -> (r: RegWrite)
    ensures
        r.addr == FLASH_OPTSR_PRG,
        r.value == optsr ^ OPTSR_SWAP_BANK,
{
    let v = if (optsr & 0x8000_0000) == 0x8000_0000 { optsr & !0x8000_0000 } else { optsr | 0x8000_0000 };
    proof {
        if (optsr & 0x8000_0000u32) == 0x8000_0000u32 {
            assert(optsr & !0x8000_0000u32 == optsr ^ 0x8000_0000u32) by (bit_vector)
                requires (optsr & 0x8000_0000u32) == 0x8000_0000u32;
        } else {
            assert(optsr | 0x8000_0000u32 == optsr ^ 0x8000_0000u32) by (bit_vector)
                requires (optsr & 0x8000_0000u32) != 0x8000_0000u32;
        }
    }
    RegWrite { addr: FLASH_OPTSR_PRG, value: v }
}

/// The flash security settings in force.
#[derive(Clone, Copy, Debug, PartialEq, Eq, Structural)]
pub struct SecureStatus {
    /// The security option bit.
    pub secure: bool,
    /// First address of the secure region of bank 1.
    pub start: u32,
    /// Last address of the secure region of bank 1.
    pub end: u32,
    /// Whether the secure region is erased when protection is lowered.
    pub erase_on_regression: bool,
    /// The read-out protection level.
    pub rdp: u32,
}

/// Decodes the current option status and secure-area register of bank 1.
pub fn stmsecure_status(optsr: u32, scar_cur1: u32) -> (r: SecureStatus)
    ensures
        r.rdp == (optsr & OPTSR_RDP_MASK) >> 8u32,
        r.secure == (optsr & OPTSR_SECURITY == OPTSR_SECURITY),
        r.erase_on_regression == (scar_cur1 & 0x8000_0000 == 0x8000_0000),
        r.start == ((scar_cur1 & 0x0000_0fff) << 8u32) | 0x0800_0000,
        r.end == (((scar_cur1 & 0x0fff_000) >> 16u32) << 8u32) | 0x0800_00ff,
{
    SecureStatus {
        secure: (optsr & 0x20_0000) == 0x20_0000,
        start: ((scar_cur1 & 0x0000_0FFF) << 8) | 0x0800_0000,
        end: (((scar_cur1 & 0x0FFF_000) >> 16) << 8) | 0x0800_00ff,
        erase_on_regression: (scar_cur1 & 0x8000_0000) == 0x8000_0000,
        rdp: (optsr & 0x0000_ff00) >> 8,
    }
}

/// Why a secure region is refused.
#[derive(Clone, Copy, Debug, PartialEq, Eq, Structural)]
pub enum SecureRegionError {
    /// The start is outside flash.
    AddressOutOfRange { address: u32 },
    /// The end is outside bank 1.
    EndOutOfRange { address: u32, end: u32 },
    /// Start and size overflow the address space.
    Overflow { address: u32, size: u32 },
    /// The security option bit is not set.
    SecureBitClear,
}

/// The check of a secure region of `size` bytes at `address`: it must start
/// in flash, not overflow, and end inside bank 1; its end otherwise.
pub open spec fn check_secure_region_spec(address: u32, size: u32) -> Result<u32, SecureRegionError> {
    if !(0x0800_0000 <= address < 0x081f_ffff) {
        Err(SecureRegionError::AddressOutOfRange { address })
    } else if address + size > u32::MAX {
        Err(SecureRegionError::Overflow { address, size })
    } else if 0x0800_0000 <= address + size < 0x080f_ffff {
        Ok((address + size) as u32)
    } else {
        Err(SecureRegionError::EndOutOfRange { address, end: (address + size) as u32 })
    }
}

/// Checks a secure region of `size` bytes at `address`: it must start in
/// flash and end inside bank 1. Returns its end.
pub fn check_secure_region(address: u32, size: u32) -> (r: Result<u32, SecureRegionError>)
    ensures
        r == check_secure_region_spec(address, size),
{
    if address < 0x0800_0000 || address >= 0x081f_ffff {
        return Err(SecureRegionError::AddressOutOfRange { address });
    }
    match address.checked_add(size) {
        None => Err(SecureRegionError::Overflow { address, size }),
        Some(end) => {
            if end < 0x0800_0000 || end >= 0x080f_ffff {
                Err(SecureRegionError::EndOutOfRange { address, end })
            } else {
                Ok(end)
            }
        },
    }
}

/// What programming a secure region writes, once the security bit is known
/// to be set: the ROM's area descriptor (size, start, removal on bank erase)
/// at `0x2000_0000`, then the call's arguments (`r0` = one area, `r1` = the
/// descriptor) and its entry point for `pc`.
pub struct SecureRegionProgram {
    pub memory: Vec<RegWrite>,
    pub r0: u32,
    pub r1: u32,
    pub pc: u32,
}

/// Plans setting a secure region of `size` bytes at `address`. The region is
/// checked first (`check_secure_region`); then, if not to `commit`, nothing is
/// programmed (`None`); else the option status `optsr` must have the security
/// bit set (`SecureBitClear` otherwise), and the program is returned.
pub fn stmsecure_setsecureregion(address: u32, size: u32, commit: bool, optsr: u32) -> (r: Result<Option<SecureRegionProgram>, SecureRegionError>)
    ensures
        check_secure_region_spec(address, size) matches Err(e) ==> r matches Err(f) && f == e,
        check_secure_region_spec(address, size) is Ok && !commit ==> r matches Ok(None),
        check_secure_region_spec(address, size) is Ok && commit && optsr & OPTSR_SECURITY != OPTSR_SECURITY
            ==> r matches Err(SecureRegionError::SecureBitClear),
        check_secure_region_spec(address, size) is Ok && commit && optsr & OPTSR_SECURITY == OPTSR_SECURITY
            ==> (r matches Ok(Some(p)) && p.memory@ == seq![
            RegWrite { addr: 0x2000_0000, value: size },
            RegWrite { addr: 0x2000_0004, value: address },
            RegWrite { addr: 0x2000_0008, value: 1 },
        ] && p.r0 == 1 && p.r1 == 0x2000_0000 && p.pc == 0x1ff0_8a70),
{
    check_secure_region(address, size)?;
    if !commit {
        return Ok(None);
    }
    if (optsr & 0x20_0000) != 0x20_0000 {
        return Err(SecureRegionError::SecureBitClear);
    }
    let memory = vec![
        RegWrite { addr: 0x2000_0000, value: size },
        RegWrite { addr: 0x2000_0004, value: address },
        RegWrite { addr: 0x2000_0008, value: 1 },
    ];
    proof {
        assert(memory@ =~= seq![
            RegWrite { addr: 0x2000_0000, value: size },
            RegWrite { addr: 0x2000_0004, value: address },
            RegWrite { addr: 0x2000_0008, value: 1 },
        ]);
    }
    Ok(Some(SecureRegionProgram { memory, r0: 1, r1: 0x2000_0000, pc: 0x1ff0_8a70 }))
}

/// The write that clears the secure region of bank 1 (start above end), with
/// the secure area erased as well; it needs the option bytes unlocked first.
pub fn stmsecure_unsetsecureregion() -> (r: RegWrite)
    ensures
        r == (RegWrite { addr: FLASH_SCAR_PRG1, value: 0x8000_00ff }),
{
    RegWrite { addr: FLASH_SCAR_PRG1, value: 0x8000_00ff }
}

/// The write that starts a bank erase of bank 1 (bank erase and start bits);
/// it needs the flash unlocked first.
pub fn bank_erase_start() -> (r: RegWrite)
    ensures
        r == (RegWrite { addr: FLASH_CR1, value: 0x88 }),
{
    RegWrite { addr: FLASH_CR1, value: 0x88 }
}

/// A flash security command.
#[derive(Clone, Copy, Debug, PartialEq, Eq, Structural)]
pub enum StmSecureArgs {
    Status,
    SetRDP,
    UnsetRDP,
    SetSecureBit,
    UnsetSecureBit,
    SetSecureRegion { address: u32, size: u32, doit: bool },
    UnsetSecureRegion,
    SwapBanks,
}

/// For the commands that reprogram the option status, the write that does so
/// given the current option status `optsr`; `None` for the others.
pub fn stmsecure(cmd: StmSecureArgs, optsr: u32) -> (r: Option<RegWrite>)
    ensures
        match cmd {
            StmSecureArgs::SetRDP => r == Some(RegWrite { addr: FLASH_OPTSR_PRG, value: with_rdp(optsr, RDP_LEVEL1) }),
            StmSecureArgs::UnsetRDP => r == Some(RegWrite { addr: FLASH_OPTSR_PRG, value: with_rdp(optsr, RDP_LEVEL0) }),
            StmSecureArgs::SetSecureBit => r == Some(RegWrite { addr: FLASH_OPTSR_PRG, value: optsr | OPTSR_SECURITY }),
            StmSecureArgs::UnsetSecureBit => r == Some(RegWrite { addr: FLASH_OPTSR_PRG, value: optsr & !OPTSR_SECURITY }),
            StmSecureArgs::SwapBanks => r == Some(RegWrite { addr: FLASH_OPTSR_PRG, value: optsr ^ OPTSR_SWAP_BANK }),
            _ => r is None,
        },
{
    match cmd {
        StmSecureArgs::SetRDP => Some(stmsecure_rdpset_value(optsr)),
        StmSecureArgs::UnsetRDP => Some(stmsecure_rdpunset_nocommit(optsr)),
        StmSecureArgs::SetSecureBit => Some(stmsecure_lockbit_value(optsr, true)),
        StmSecureArgs::UnsetSecureBit => Some(stmsecure_lockbit_value(optsr, false)),
        StmSecureArgs::SwapBanks => Some(stmsecure_swapbanks_value(optsr)),
        _ => None,
    }
}

} // verus!
