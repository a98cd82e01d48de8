use boldos::api::{
    from_return, KError, PhyMapFlags, Syscall, VirtMapFlags, PHY_MAP_DEVICE_MEM,
    PHY_MAP_READ_WRITE, VIRT_MAP_READ_WRITE,
};

#[test]
fn syscall_numbers_are_fixed() {
    assert_eq!(Syscall::Exit.number(), 0);
    assert_eq!(Syscall::Log.number(), 1);
    assert_eq!(Syscall::PhyMap.number(), 2);
    assert_eq!(Syscall::VirtMap.number(), 3);
    assert_eq!(Syscall::VirtUnmap.number(), 4);
    assert_eq!(Syscall::DownloadMoreRam.number(), 5);
}

#[test]
fn syscall_from_number_round_trips() {
    for n in 0u32..6 {
        let s = Syscall::try_from_primitive(n).unwrap();
        assert_eq!(s.number(), n);
    }
    assert_eq!(Syscall::try_from_primitive(2), Ok(Syscall::PhyMap));
    assert_eq!(Syscall::try_from_primitive(6), Err(6));
    assert_eq!(Syscall::try_from_primitive(u32::MAX), Err(u32::MAX));
}

#[test]
fn kerror_codes() {
    assert_eq!(KError::AlreadyExists.code(), -1);
    assert_eq!(KError::OOM.code(), -2);
    assert_eq!(KError::Unknown(-77).code(), -77);
    assert_eq!(KError::from_primitive(-1), KError::AlreadyExists);
    assert_eq!(KError::from_primitive(-2), KError::OOM);
    assert_eq!(KError::from_primitive(-3), KError::Unknown(-3));
    assert_eq!(KError::from_primitive(0), KError::Unknown(0));
    assert_eq!(KError::from_primitive(i32::MIN), KError::Unknown(i32::MIN));
    for n in [-5i32, -2, -1, 0, 1, i32::MAX, i32::MIN] {
        assert_eq!(KError::from_primitive(n).code(), n);
    }
}

#[test]
fn kerror_travels_as_negative_register_value() {
    assert_eq!(KError::AlreadyExists.to_return(), 0xffff_ffff_ffff_ffff);
    assert_eq!(KError::OOM.to_return(), 0xffff_ffff_ffff_fffe);
    assert_eq!(KError::Unknown(i32::MIN).to_return(), 0xffff_ffff_8000_0000);
    assert_eq!(KError::Unknown(7).to_return(), 7);
    assert!((KError::OOM.to_return() as i64) < 0);
    assert_eq!(KError::OOM.to_return() as u32 as i32, -2);
}

#[test]
fn from_return_reads_value_or_error() {
    assert_eq!(from_return(0), Ok(0));
    assert_eq!(from_return(0x5000_0000), Ok(0x5000_0000));
    assert_eq!(from_return(0x7fff_ffff_ffff_ffff), Ok(0x7fff_ffff_ffff_ffff));
    assert_eq!(from_return(u64::MAX), Err(KError::AlreadyExists));
    assert_eq!(from_return(0xffff_ffff_ffff_fffe), Err(KError::OOM));
    assert_eq!(from_return(0xffff_ffff_ffff_fff0), Err(KError::Unknown(-16)));
    assert_eq!(from_return(0x8000_0000_0000_0005), Err(KError::Unknown(5)));
    assert_eq!(from_return(KError::OOM.to_return()), Err(KError::OOM));
    assert_eq!(from_return(KError::Unknown(-1234).to_return()), Err(KError::Unknown(-1234)));
}

#[test]
fn phy_map_flags() {
    assert_eq!(PHY_MAP_READ_WRITE, 1);
    assert_eq!(PHY_MAP_DEVICE_MEM, 2);
    assert_eq!(PhyMapFlags::empty().bits(), 0);
    assert_eq!(PhyMapFlags::from_bits(3), Some(PhyMapFlags { bits: 3 }));
    assert_eq!(PhyMapFlags::from_bits(4), None);
    assert_eq!(PhyMapFlags::from_bits(0x8000_0000_0000_0001), None);
    assert_eq!(PhyMapFlags::from_bits_truncate(0xff).bits(), 3);
    assert_eq!(PhyMapFlags::from_bits_truncate(0xfc).bits(), 0);
    let f = PhyMapFlags::from_bits_truncate(2);
    assert!(f.contains(PHY_MAP_DEVICE_MEM));
    assert!(!f.contains(PHY_MAP_READ_WRITE));
    assert!(f.contains(0));
    assert!(!f.contains(3));
}

#[test]
fn virt_map_flags() {
    assert_eq!(VIRT_MAP_READ_WRITE, 1);
    assert_eq!(VirtMapFlags::empty().bits(), 0);
    assert_eq!(VirtMapFlags::from_bits(1), Some(VirtMapFlags { bits: 1 }));
    assert_eq!(VirtMapFlags::from_bits(2), None);
    assert_eq!(VirtMapFlags::from_bits_truncate(3).bits(), 1);
    assert!(VirtMapFlags::from_bits_truncate(1).contains(VIRT_MAP_READ_WRITE));
    assert!(!VirtMapFlags::empty().contains(VIRT_MAP_READ_WRITE));
}
