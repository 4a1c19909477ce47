use llang::codegen::allocator::Allocator;
use llang::ir::instruction::{IrReg, IrType, IrValue};
use llang::parser::types::Type;
use llang::semantic::scope::ScopeId;
use llang::semantic::symbol::SymbolId;

#[test]
fn allocator_starts_empty() {
    let a = Allocator::new();
    assert_eq!(a.get_stack_size(), 0);
    assert_eq!(a.get_ra_offset(), None);
}

#[test]
fn allocator_aligns_variables_to_their_size() {
    let mut a = Allocator::new();
    a.insert_variable(&SymbolId(1), &IrType::I8);
    assert_eq!(a.get_variable_offset(&SymbolId(1)), 0);
    assert_eq!(a.get_stack_size(), 1);
    a.insert_variable(&SymbolId(2), &IrType::I32);
    assert_eq!(a.get_variable_offset(&SymbolId(2)), 4);
    assert_eq!(a.get_stack_size(), 8);
    a.insert_variable(&SymbolId(3), &IrType::I16);
    assert_eq!(a.get_variable_offset(&SymbolId(3)), 8);
    assert_eq!(a.get_stack_size(), 10);
    a.insert_variable(&SymbolId(4), &IrType::Bool);
    assert_eq!(a.get_variable_offset(&SymbolId(4)), 10);
    assert_eq!(a.get_stack_size(), 11);
}

#[test]
fn allocator_return_address_is_word_aligned() {
    let mut a = Allocator::new();
    a.insert_variable(&SymbolId(0), &IrType::Bool);
    a.insert_ra();
    assert_eq!(a.get_ra_offset(), Some(4));
    assert_eq!(a.get_stack_size(), 8);
}

#[test]
fn allocator_spill_slots_are_reused() {
    let mut a = Allocator::new();
    a.insert_variable(&SymbolId(0), &IrType::I8);
    let first = a.get_or_insert_spill(0);
    assert_eq!(first, 4);
    assert_eq!(a.get_stack_size(), 8);
    let again = a.get_or_insert_spill(0);
    assert_eq!(again, 4);
    assert_eq!(a.get_stack_size(), 8);
    let second = a.get_or_insert_spill(1);
    assert_eq!(second, 8);
    assert_eq!(a.get_stack_size(), 12);
}

#[test]
fn allocator_arrays_are_aligned_to_their_elements() {
    let mut a = Allocator::new();
    a.insert_variable(&SymbolId(0), &IrType::I8);
    a.insert_array(3, 4, 5);
    assert_eq!(a.get_array_base_offset(3), 4);
    assert_eq!(a.get_stack_size(), 24);
    a.insert_array(4, 1, 3);
    assert_eq!(a.get_array_base_offset(4), 24);
    assert_eq!(a.get_stack_size(), 27);
}

#[test]
fn allocator_structs_and_double_word_alignment() {
    let mut a = Allocator::new();
    a.insert_variable(&SymbolId(0), &IrType::I8);
    a.insert_struct(&SymbolId(9), 6);
    assert_eq!(a.get_variable_offset(&SymbolId(9)), 4);
    assert_eq!(a.get_stack_size(), 10);
    a.align8();
    assert_eq!(a.get_stack_size(), 16);
    a.align8();
    assert_eq!(a.get_stack_size(), 16);
}

#[test]
fn ir_types_of_source_types() {
    assert_eq!(IrType::from(&Type::Int8), IrType::I8);
    assert_eq!(IrType::from(&Type::Int16), IrType::I16);
    assert_eq!(IrType::from(&Type::Int32), IrType::I32);
    assert_eq!(IrType::from(&Type::Bool), IrType::Bool);
    assert_eq!(IrType::from(&Type::Void), IrType::Void);
    assert_eq!(IrType::from(&Type::Pointer(Box::new(Type::Int8))), IrType::I32);
}

#[test]
fn ir_type_sizes_and_suffixes() {
    assert_eq!(IrType::I8.size_bytes(), 1);
    assert_eq!(IrType::I16.size_bytes(), 2);
    assert_eq!(IrType::I32.size_bytes(), 4);
    assert_eq!(IrType::Bool.size_bytes(), 1);
    assert_eq!(IrType::Void.size_bytes(), 0);
    assert_eq!(IrType::I8.instruction(), "b");
    assert_eq!(IrType::I16.instruction(), "h");
    assert_eq!(IrType::I32.instruction(), "w");
    assert_eq!(IrType::Bool.instruction(), "b");
    assert_eq!(IrType::Void.instruction(), "");
}

#[test]
fn register_names() {
    assert_eq!(IrReg::Temp(3).to_text(), "$t3");
    assert_eq!(IrReg::Arg(0).to_text(), "$a0");
    assert_eq!(IrReg::RetVal.to_text(), "$v0");
    assert_eq!(IrReg::RetAddr.to_text(), "$ra0");
    assert_eq!(IrReg::Temp(12).to_text(), "$t12");
}

#[test]
fn immediates() {
    assert_eq!(IrValue::Immediate(-4).as_immediate(), Some(-4));
    assert_eq!(IrValue::Reg(IrReg::Temp(1)).as_immediate(), None);
}

#[test]
fn ids_expose_their_numbers() {
    assert_eq!(SymbolId(42).value(), 42);
    assert_eq!(ScopeId(-1).value(), -1);
}

#[test]
fn allocator_spill_slot_lookup_near_the_limit() {
    let mut a = Allocator::new();
    a.insert_array(0, 1, usize::MAX - 8);
    assert_eq!(a.get_stack_size(), usize::MAX - 8);
    let first = a.get_or_insert_spill(7);
    assert_eq!(first, usize::MAX - 7);
    assert_eq!(a.get_stack_size(), usize::MAX - 3);
    let again = a.get_or_insert_spill(7);
    assert_eq!(again, first);
    assert_eq!(a.get_stack_size(), usize::MAX - 3);
    a.insert_variable(&SymbolId(1), &IrType::I8);
    assert_eq!(a.get_variable_offset(&SymbolId(1)), usize::MAX - 3);
    assert_eq!(a.get_stack_size(), usize::MAX - 2);
}

#[test]
fn allocator_regions_do_not_overlap() {
    let mut a = Allocator::new();
    a.insert_variable(&SymbolId(0), &IrType::I8);
    a.insert_variable(&SymbolId(1), &IrType::I32);
    a.insert_array(2, 2, 3);
    let spill = a.get_or_insert_spill(0);
    a.insert_ra();
    let mut regions = vec![
        (a.get_variable_offset(&SymbolId(0)), 1),
        (a.get_variable_offset(&SymbolId(1)), 4),
        (a.get_array_base_offset(2), 6),
        (spill, 4),
        (a.get_ra_offset().unwrap(), 4),
    ];
    regions.sort();
    for w in regions.windows(2) {
        assert!(w[0].0 + w[0].1 <= w[1].0);
    }
    let last = regions[regions.len() - 1];
    assert!(last.0 + last.1 <= a.get_stack_size());
}

#[test]
fn allocator_arrays_of_wide_elements_are_aligned() {
    let mut a = Allocator::new();
    a.insert_variable(&SymbolId(0), &IrType::I8);
    a.insert_array(5, 16, 2);
    assert_eq!(a.get_array_base_offset(5) % 16, 0);
    assert_eq!(a.get_array_base_offset(5), 16);
    assert_eq!(a.get_stack_size(), 48);
}
