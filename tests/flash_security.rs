use humility_dump::stm32h7::{
    bank_erase_done, bank_erase_start, check_secure_region, option_commit_done, stmsecure,
    stmsecure_commit_option, stmsecure_rdpunset_nocommit, stmsecure_setsecureregion, stmsecure_status,
    stmsecure_unlock_flash, stmsecure_unlock_option, stmsecure_unsetsecureregion, RegWrite,
    SecureRegionError, StmSecureArgs, FLASH_CR1, FLASH_KEYR1, FLASH_OPTSR_PRG, FLASH_OPT_CR,
    FLASH_OPT_KEYR, FLASH_SCAR_PRG1,
};

#[test]
fn unlock_sequences() {
    assert_eq!(
        stmsecure_unlock_flash(),
        vec![RegWrite { addr: FLASH_KEYR1, value: 0x4567_0123 }, RegWrite { addr: FLASH_KEYR1, value: 0xCDEF_89AB }]
    );
    assert_eq!(
        stmsecure_unlock_option(),
        vec![RegWrite { addr: FLASH_OPT_KEYR, value: 0x0819_2A3B }, RegWrite { addr: FLASH_OPT_KEYR, value: 0x4C5D_6E7F }]
    );
    assert_eq!(stmsecure_commit_option(), RegWrite { addr: FLASH_OPT_CR, value: 2 });
    assert!(!option_commit_done(0x1234_5671));
    assert!(option_commit_done(0x1234_5670));
    assert_eq!(bank_erase_start(), RegWrite { addr: FLASH_CR1, value: 0x88 });
    assert!(!bank_erase_done(4));
    assert!(bank_erase_done(3));
    assert_eq!(stmsecure_unsetsecureregion(), RegWrite { addr: FLASH_SCAR_PRG1, value: 0x8000_00ff });
}

#[test]
fn option_values() {
    let optsr = 0x1234_5678;
    assert_eq!(stmsecure_rdpunset_nocommit(optsr), RegWrite { addr: FLASH_OPTSR_PRG, value: 0x1234_aa78 });
    assert_eq!(stmsecure(StmSecureArgs::SetRDP, optsr), Some(RegWrite { addr: FLASH_OPTSR_PRG, value: 0x1234_bb78 }));
    assert_eq!(stmsecure(StmSecureArgs::SetSecureBit, optsr), Some(RegWrite { addr: FLASH_OPTSR_PRG, value: 0x1234_5678 | 0x20_0000 }));
    assert_eq!(stmsecure(StmSecureArgs::UnsetSecureBit, 0x0020_0001), Some(RegWrite { addr: FLASH_OPTSR_PRG, value: 1 }));
    assert_eq!(stmsecure(StmSecureArgs::SwapBanks, 0x8000_0001), Some(RegWrite { addr: FLASH_OPTSR_PRG, value: 1 }));
    assert_eq!(stmsecure(StmSecureArgs::SwapBanks, 1), Some(RegWrite { addr: FLASH_OPTSR_PRG, value: 0x8000_0001 }));
    assert_eq!(stmsecure(StmSecureArgs::Status, optsr), None);
}

#[test]
fn status_decodes() {
    let s = stmsecure_status(0x0020_bb00, 0x8012_0034);
    assert!(s.secure);
    assert_eq!(s.rdp, 0xbb);
    assert!(s.erase_on_regression);
    assert_eq!(s.start, 0x0800_3400);
    assert_eq!(s.end, 0x0800_12ff);
}

#[test]
fn secure_region_checks() {
    assert_eq!(check_secure_region(0x0700_0000, 16), Err(SecureRegionError::AddressOutOfRange { address: 0x0700_0000 }));
    assert_eq!(check_secure_region(0x0800_0000, 0x1000), Ok(0x0800_1000));
    assert_eq!(
        check_secure_region(0x0810_0000, 0x10),
        Err(SecureRegionError::EndOutOfRange { address: 0x0810_0000, end: 0x0810_0010 })
    );
    assert_eq!(
        check_secure_region(0x0800_0000, 0xffff_0000),
        Err(SecureRegionError::Overflow { address: 0x0800_0000, size: 0xffff_0000 })
    );
    assert!(matches!(stmsecure_setsecureregion(0x0800_0000, 0x100, true, 0), Err(SecureRegionError::SecureBitClear)));
    assert!(matches!(stmsecure_setsecureregion(0x0800_0000, 0x100, false, 0), Ok(None)));
    assert!(matches!(
        stmsecure_setsecureregion(0x0700_0000, 0x100, true, 0x20_0000),
        Err(SecureRegionError::AddressOutOfRange { address: 0x0700_0000 })
    ));
    assert!(matches!(
        stmsecure_setsecureregion(0x0810_0000, 0x10, false, 0x20_0000),
        Err(SecureRegionError::EndOutOfRange { .. })
    ));
    let p = stmsecure_setsecureregion(0x0800_0000, 0x100, true, 0x20_0000).ok().unwrap().unwrap();
    assert_eq!(p.memory[0], RegWrite { addr: 0x2000_0000, value: 0x100 });
    assert_eq!((p.r0, p.r1, p.pc), (1, 0x2000_0000, 0x1ff0_8a70));
}
