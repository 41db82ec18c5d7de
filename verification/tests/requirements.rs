use raw_read::{DumpError, Opt, Requirements};

#[test]
fn test_requirements_from_opt_valid() -> Result<(), String> {
    let opt = Opt {
        start_addr_bytes: 0xfedc_ba98_7654_3210_usize,
        size_bytes: 0x0000_0000_0000_cdf0_usize,
        per_row: 16_usize,
    };

    if let Ok(_) = Requirements::try_from(opt) {
        Ok(())
    } else {
        Err(String::from("Requirements::try_from(opt) Should have succeeded"))
    }
}

#[test]
fn test_requirements_from_opt_per_row_zero() -> Result<(), String> {
    let opt = Opt {
        start_addr_bytes: 0xfedc_ba98_7654_3210_usize,
        size_bytes: 0x0000_0000_0000_cdf0_usize,
        per_row: 0_usize,
    };

    if let Ok(_) = Requirements::try_from(opt) {
        Err(String::from("Requirements::try_from(opt) Should have failed"))
    } else {
        Ok(())
    }
}

#[test]
fn test_requirements_from_opt_misaligned_addr() -> Result<(), String> {
    let opt = Opt {
        start_addr_bytes: 0xfedc_ba98_7654_3211_usize,
        size_bytes: 0x0000_0000_0000_cdf0_usize,
        per_row: 16_usize,
    };

    if let Ok(_) = Requirements::try_from(opt) {
        Err(String::from("Requirements::try_from(opt) Should have failed"))
    } else {
        Ok(())
    }
}

#[test]
fn test_requirements_from_opt_misaligned_size() -> Result<(), String> {
    let opt = Opt {
        start_addr_bytes: 0xfedc_ba98_7654_3210_usize,
        size_bytes: 0x0000_0000_0000_cdf1_usize,
        per_row: 16_usize,
    };

    if let Ok(_) = Requirements::try_from(opt) {
        Err(String::from("Requirements::try_from(opt) Should have failed"))
    } else {
        Ok(())
    }
}

#[test]
fn test_requirements_from_opt_misaligned_addr_and_size() -> Result<(), String> {
    let opt = Opt {
        start_addr_bytes: 0xfedc_ba98_7654_3211_usize,
        size_bytes: 0x0000_0000_0000_cdf3_usize,
        per_row: 16_usize,
    };

    if let Ok(_) = Requirements::try_from(opt) {
        Err(String::from("Requirements::try_from(opt) Should have failed"))
    } else {
        Ok(())
    }
}

#[test]
fn validation_reports_first_violation() {
    let misaligned_addr = Requirements::try_from(Opt {
        start_addr_bytes: 0x1001,
        size_bytes: 0x20,
        per_row: 4,
    });
    assert_eq!(misaligned_addr, Err(DumpError::MisalignedAddress));

    let misaligned_size = Requirements::try_from(Opt {
        start_addr_bytes: 0x1000,
        size_bytes: 0x21,
        per_row: 4,
    });
    assert_eq!(misaligned_size, Err(DumpError::MisalignedSize));

    let zero_width = Requirements::try_from(Opt {
        start_addr_bytes: 0x1000,
        size_bytes: 0x20,
        per_row: 0,
    });
    assert_eq!(zero_width, Err(DumpError::ZeroRowWidth));

    let both = Requirements::try_from(Opt {
        start_addr_bytes: 0x1001,
        size_bytes: 0x21,
        per_row: 0,
    });
    assert_eq!(both, Err(DumpError::MisalignedAddress));
}

#[test]
fn validation_passes_fields_through() {
    let reqs = Requirements::try_from(Opt {
        start_addr_bytes: 0x1000,
        size_bytes: 0x20,
        per_row: 4,
    })
    .expect("aligned request should validate");
    assert_eq!(reqs.addr, 0x1000);
    assert_eq!(reqs.size, 0x20);
    assert_eq!(reqs.per_row, 4);
}
