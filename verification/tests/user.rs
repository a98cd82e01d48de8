use boldos::api::{KError, PhyMapFlags, VirtMapFlags};
use boldos::user::{
    download_more_ram, exit, find_mem_nodes, log_buf, map_dtb, map_result, phy_map, unit_result,
    virt_map, virt_unmap, DevTreeError, DtNode, DtProp, DtbMapStep, SyscallRequest, DTB_ADDR,
    DTB_MAP_LEN,
};

fn prop(name: &str, first_str: Option<&str>, cells: &[u64]) -> Result<DtProp, DevTreeError> {
    Ok(DtProp {
        name: name.as_bytes().to_vec(),
        first_str: Ok(first_str.map(|s| s.as_bytes().to_vec())),
        cells: cells.to_vec(),
    })
}

fn bad_str(name: &str, e: DevTreeError) -> Result<DtProp, DevTreeError> {
    Ok(DtProp { name: name.as_bytes().to_vec(), first_str: Err(e), cells: Vec::new() })
}

fn node(name: &str, props: Vec<Result<DtProp, DevTreeError>>) -> Result<DtNode, DevTreeError> {
    Ok(DtNode { name: name.as_bytes().to_vec(), props })
}

#[test]
fn requests_fill_the_registers() {
    assert_eq!(exit(3), SyscallRequest { x8: 0, x0: 3, x1: 0, x2: 0 });
    assert_eq!(log_buf(0x1000_0040, 21), SyscallRequest { x8: 1, x0: 0x1000_0040, x1: 21, x2: 0 });
    assert_eq!(
        phy_map(0x4000_0000, 0x1000, PhyMapFlags { bits: 2 }),
        SyscallRequest { x8: 2, x0: 0x4000_0000, x1: 0x1000, x2: 2 }
    );
    assert_eq!(
        virt_map(10 * 1024 * 1024, VirtMapFlags { bits: 1 }),
        SyscallRequest { x8: 3, x0: 0xa0_0000, x1: 1, x2: 0 }
    );
    assert_eq!(
        virt_unmap(0x5000_0000, 0x1000),
        SyscallRequest { x8: 4, x0: 0x5000_0000, x1: 0x1000, x2: 0 }
    );
    assert_eq!(
        download_more_ram(0x4000_0000, 0x1000_0000),
        SyscallRequest { x8: 5, x0: 0x4000_0000, x1: 0x1000_0000, x2: 0 }
    );
}

#[test]
fn results_are_values_or_errors() {
    assert_eq!(map_result(0x5000_0000), Ok(0x5000_0000));
    assert_eq!(map_result(0), Ok(0));
    assert_eq!(map_result(0xffff_ffff_ffff_fffe), Err(KError::OOM));
    assert_eq!(map_result(u64::MAX), Err(KError::AlreadyExists));
    assert_eq!(map_result(0xffff_ffff_ffff_fffd), Err(KError::Unknown(-3)));
    assert_eq!(unit_result(0), Ok(()));
    assert_eq!(unit_result(77), Ok(()));
    assert_eq!(unit_result(0xffff_ffff_ffff_fffe), Err(KError::OOM));
    assert_eq!(unit_result(u64::MAX), Err(KError::AlreadyExists));
}

#[test]
fn short_device_tree_is_used_as_mapped() {
    assert_eq!(DTB_ADDR, 0x4000_0000);
    assert_eq!(DTB_MAP_LEN, 0x1000);
    assert_eq!(map_dtb(40), DtbMapStep::Use { len: 40 });
    assert_eq!(map_dtb(0x1000), DtbMapStep::Use { len: 0x1000 });
    assert_eq!(map_dtb(0x1001), DtbMapStep::Remap { len: 0x1001, map_len: 0x2000 });
    assert_eq!(map_dtb(0x10_0000), DtbMapStep::Remap { len: 0x10_0000, map_len: 0x10_0000 });
}

#[test]
fn finds_bootargs_and_memory() {
    let nodes = vec![
        node("", vec![prop("compatible", Some("linux,dummy-virt"), &[])]),
        node(
            "memory@40000000",
            vec![
                prop("device_type", Some("memory"), &[]),
                prop("reg", None, &[0x4000_0000, 0x1000_0000]),
            ],
        ),
        node("chosen", vec![prop("stdout-path", Some("/pl011@9000000"), &[]), prop("bootargs", Some("quiet"), &[])]),
    ];
    let found = find_mem_nodes(&nodes).unwrap();
    assert_eq!(found.bootargs, Some(b"quiet".to_vec()));
    assert_eq!(found.mem, Some((0x4000_0000, 0x1000_0000)));
}

#[test]
fn nothing_found_in_a_tree_without_those_nodes() {
    let found = find_mem_nodes(&Vec::new()).unwrap();
    assert_eq!(found.bootargs, None);
    assert_eq!(found.mem, None);
    let nodes = vec![
        node("memory", vec![prop("reg", None, &[1, 2])]),
        node("chosen2", vec![prop("bootargs", Some("x"), &[])]),
        node("xmemory@0", vec![prop("reg", None, &[1, 2])]),
        node("chosen", vec![prop("bootarg", Some("x"), &[])]),
        node("memory@0", vec![prop("regs", None, &[1, 2])]),
    ];
    let found = find_mem_nodes(&nodes).unwrap();
    assert_eq!(found.bootargs, None);
    assert_eq!(found.mem, None);
}

#[test]
fn the_last_node_counts_and_the_first_property() {
    let nodes = vec![
        node("memory@0", vec![prop("reg", None, &[0, 0x1000])]),
        node("chosen", vec![prop("bootargs", Some("first"), &[])]),
        node(
            "memory@80000000",
            vec![prop("reg", None, &[0x8000_0000, 0x2000, 7]), prop("reg", None, &[1, 1])],
        ),
        node("chosen", vec![prop("bootargs", None, &[]), prop("bootargs", Some("late"), &[])]),
        node("memory@9", vec![prop("other", None, &[])]),
    ];
    let found = find_mem_nodes(&nodes).unwrap();
    assert_eq!(found.bootargs, None);
    assert_eq!(found.mem, Some((0x8000_0000, 0x2000)));
}

#[test]
fn short_reg_is_an_error() {
    let nodes = vec![
        node("chosen", vec![prop("bootargs", Some("a"), &[])]),
        node("memory@0", vec![prop("reg", None, &[5])]),
        node("memory@1", vec![prop("reg", None, &[5, 6])]),
    ];
    assert_eq!(find_mem_nodes(&nodes).err(), Some(DevTreeError::InvalidOffset));
    let nodes = vec![node("memory@0", vec![prop("reg", None, &[])])];
    assert_eq!(find_mem_nodes(&nodes).err(), Some(DevTreeError::InvalidOffset));
}

#[test]
fn read_errors_end_the_search_where_the_search_reads() {
    // a string that cannot be read, in the property that is looked for
    let nodes = vec![node("chosen", vec![bad_str("bootargs", DevTreeError::StrError)])];
    assert_eq!(find_mem_nodes(&nodes).err(), Some(DevTreeError::StrError));
    // a property that cannot be read, before the one that is looked for
    let nodes = vec![node(
        "memory@0",
        vec![prop("a", None, &[]), Err(DevTreeError::ParseError), prop("reg", None, &[1, 2])],
    )];
    assert_eq!(find_mem_nodes(&nodes).err(), Some(DevTreeError::ParseError));
    // a node that cannot be read
    let nodes = vec![
        node("memory@0", vec![prop("reg", None, &[1, 2])]),
        Err(DevTreeError::InvalidOffset),
        node("chosen", vec![prop("bootargs", Some("x"), &[])]),
    ];
    assert_eq!(find_mem_nodes(&nodes).err(), Some(DevTreeError::InvalidOffset));
    // the first error counts
    let nodes = vec![
        node("chosen", vec![Err(DevTreeError::ParseError)]),
        Err(DevTreeError::InvalidMagicNumber),
    ];
    assert_eq!(find_mem_nodes(&nodes).err(), Some(DevTreeError::ParseError));
}

#[test]
fn read_errors_that_the_search_does_not_come_to_are_no_errors() {
    let nodes = vec![
        // of a node of another name no property is read
        node("cpus", vec![Err(DevTreeError::ParseError)]),
        node("soc", vec![bad_str("bootargs", DevTreeError::StrError)]),
        // behind the property that is looked for nothing is read
        node(
            "chosen",
            vec![
                bad_str("stdout-path", DevTreeError::StrError),
                prop("bootargs", Some("quiet"), &[]),
                Err(DevTreeError::ParseError),
            ],
        ),
        node(
            "memory@40000000",
            vec![
                bad_str("reg", DevTreeError::StrError),
                Err(DevTreeError::InvalidParameter),
            ],
        ),
    ];
    assert_eq!(find_mem_nodes(&nodes).err(), Some(DevTreeError::InvalidOffset));
    let nodes = vec![
        node("cpus", vec![Err(DevTreeError::NotEnoughMemory)]),
        node(
            "chosen",
            vec![prop("bootargs", Some("quiet"), &[]), Err(DevTreeError::ParseError)],
        ),
        node(
            "memory@40000000",
            vec![Ok(DtProp {
                name: b"reg".to_vec(),
                first_str: Err(DevTreeError::StrError),
                cells: vec![0x4000_0000, 0x1000_0000],
            })],
        ),
    ];
    let found = find_mem_nodes(&nodes).unwrap();
    assert_eq!(found.bootargs, Some(b"quiet".to_vec()));
    assert_eq!(found.mem, Some((0x4000_0000, 0x1000_0000)));
}
