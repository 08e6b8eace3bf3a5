use kmemsnoop::ksym::{KSYM_DATA, KSYM_FUNC};
use kmemsnoop::perf::{HW_BREAKPOINT_R, HW_BREAKPOINT_RW, HW_BREAKPOINT_W, HW_BREAKPOINT_X};
use kmemsnoop::resolve::{
    device_bus, failure_message, ksym2addr, parse_addr, parse_bp, select_root, symbol_kind,
    vmlinux2addr, BpType, ResolveError, Root, Strategy,
};

const KALLSYMS: &[u8] = b"\
ffffffff81000000 T do_work
ffffffff82000000 D jiffies
ffffffff82000100 d do_work
";

#[test]
fn bp_type_gives_kind_and_width() {
    assert_eq!(parse_bp(BpType::R1), (HW_BREAKPOINT_R, 1));
    assert_eq!(parse_bp(BpType::W1), (HW_BREAKPOINT_W, 1));
    assert_eq!(parse_bp(BpType::RW1), (HW_BREAKPOINT_RW, 1));
    assert_eq!(parse_bp(BpType::X1), (HW_BREAKPOINT_X, 1));
    assert_eq!(parse_bp(BpType::R2), (HW_BREAKPOINT_R, 2));
    assert_eq!(parse_bp(BpType::W2), (HW_BREAKPOINT_W, 2));
    assert_eq!(parse_bp(BpType::RW2), (HW_BREAKPOINT_RW, 2));
    assert_eq!(parse_bp(BpType::X2), (HW_BREAKPOINT_X, 2));
    assert_eq!(parse_bp(BpType::R4), (HW_BREAKPOINT_R, 4));
    assert_eq!(parse_bp(BpType::W4), (HW_BREAKPOINT_W, 4));
    assert_eq!(parse_bp(BpType::RW4), (HW_BREAKPOINT_RW, 4));
    assert_eq!(parse_bp(BpType::X4), (HW_BREAKPOINT_X, 4));
    assert_eq!(parse_bp(BpType::R8), (HW_BREAKPOINT_R, 8));
    assert_eq!(parse_bp(BpType::W8), (HW_BREAKPOINT_W, 8));
    assert_eq!(parse_bp(BpType::RW8), (HW_BREAKPOINT_RW, 8));
    assert_eq!(parse_bp(BpType::X8), (HW_BREAKPOINT_X, 8));
}

#[test]
fn literal_comes_before_every_other_strategy() {
    assert_eq!(
        parse_addr("ffffffff81000000", HW_BREAKPOINT_W, true, true),
        Strategy::Literal(0xffffffff81000000)
    );
    assert_eq!(
        parse_addr("0x10", HW_BREAKPOINT_X, false, false),
        Strategy::Literal(0x10)
    );
    assert_eq!(
        parse_addr("dead", HW_BREAKPOINT_X, true, false),
        Strategy::Literal(0xdead)
    );
}

#[test]
fn root_comes_before_image_and_image_before_live_symbols() {
    assert_eq!(
        parse_addr("parent", HW_BREAKPOINT_W, true, true),
        Strategy::FieldPath
    );
    assert_eq!(
        parse_addr("parent", HW_BREAKPOINT_W, true, false),
        Strategy::FieldPath
    );
    assert_eq!(
        parse_addr("jiffies", HW_BREAKPOINT_W, false, true),
        Strategy::DebugImage
    );
    assert_eq!(
        parse_addr("jiffies", HW_BREAKPOINT_W, false, false),
        Strategy::LiveSymbol(KSYM_DATA)
    );
    assert_eq!(
        parse_addr("do_work", HW_BREAKPOINT_X, false, false),
        Strategy::LiveSymbol(KSYM_FUNC)
    );
}

#[test]
fn execute_watches_functions_and_the_rest_data() {
    assert_eq!(symbol_kind(HW_BREAKPOINT_X), KSYM_FUNC);
    assert_eq!(symbol_kind(HW_BREAKPOINT_R), KSYM_DATA);
    assert_eq!(symbol_kind(HW_BREAKPOINT_W), KSYM_DATA);
    assert_eq!(symbol_kind(HW_BREAKPOINT_RW), KSYM_DATA);
    assert_eq!(symbol_kind(0), KSYM_DATA);
}

#[test]
fn live_symbol_is_found_by_kind() {
    assert_eq!(
        ksym2addr(KALLSYMS, "do_work", HW_BREAKPOINT_X),
        Ok(0xffffffff81000000)
    );
    assert_eq!(
        ksym2addr(KALLSYMS, "do_work", HW_BREAKPOINT_W),
        Ok(0xffffffff82000100)
    );
    assert_eq!(
        ksym2addr(KALLSYMS, "jiffies", HW_BREAKPOINT_RW),
        Ok(0xffffffff82000000)
    );
    assert_eq!(
        ksym2addr(KALLSYMS, "jiffies", HW_BREAKPOINT_X),
        Err(ResolveError::NotFound)
    );
    assert_eq!(
        ksym2addr(KALLSYMS, "missing", HW_BREAKPOINT_R),
        Err(ResolveError::NotFound)
    );
    assert_eq!(
        ksym2addr(b"", "jiffies", HW_BREAKPOINT_R),
        Err(ResolveError::NotFound)
    );
}

#[test]
fn image_symbol_must_be_the_only_one() {
    assert_eq!(vmlinux2addr(&vec![0xffffffff81000000]), Ok(0xffffffff81000000));
    assert_eq!(vmlinux2addr(&vec![]), Err(ResolveError::NotFound));
    assert_eq!(vmlinux2addr(&vec![1, 2]), Err(ResolveError::NotUnique(2)));
    assert_eq!(vmlinux2addr(&vec![1, 1, 1]), Err(ResolveError::NotUnique(3)));
}

#[test]
fn failure_names_the_expression() {
    assert_eq!(
        failure_message("jiffies"),
        "Failed to get address of symbol jiffies"
    );
    assert_eq!(failure_message(""), "Failed to get address of symbol ");
}

#[test]
fn first_named_root_counts() {
    let pci = Some("0000:00:1f.2".to_string());
    let usb = Some("1-1".to_string());
    let plat = Some("serial8250".to_string());
    assert_eq!(
        select_root(Some(1), pci.clone(), usb.clone(), plat.clone()),
        Some(Root::Task(1))
    );
    assert_eq!(
        select_root(None, pci.clone(), usb.clone(), plat.clone()),
        Some(Root::PciDev("0000:00:1f.2".to_string()))
    );
    assert_eq!(
        select_root(None, None, usb.clone(), plat.clone()),
        Some(Root::UsbDev("1-1".to_string()))
    );
    assert_eq!(
        select_root(None, None, None, plat.clone()),
        Some(Root::PlatDev("serial8250".to_string()))
    );
    assert_eq!(select_root(None, None, None, None), None);
    assert_eq!(select_root(Some(7), None, None, None), Some(Root::Task(7)));
}

#[test]
fn device_roots_have_a_bus_and_a_type() {
    assert_eq!(device_bus(&Root::Task(1)), None);
    assert_eq!(
        device_bus(&Root::PciDev("x".to_string())),
        Some(("pci", "struct pci_dev"))
    );
    assert_eq!(
        device_bus(&Root::UsbDev("x".to_string())),
        Some(("usb", "struct usb_device"))
    );
    assert_eq!(
        device_bus(&Root::PlatDev("x".to_string())),
        Some(("platform", "struct platform_device"))
    );
}
