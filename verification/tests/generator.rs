use jolang_compiler::ast::BinOpKind;
use jolang_compiler::generator::IrGenerator;
use jolang_compiler::ir::{Instruction, Opcode, ValueHandle};
use jolang_compiler::scope::{Scope, ScopeKind};

#[test]
fn new_generator_is_empty() {
    let generator = IrGenerator::new();
    assert_eq!(generator.block_count(), 0);
    assert_eq!(generator.scope_depth(), 0);
    assert_eq!(generator.variable_count(), 0);
    assert_eq!(generator.current_block(), 0);
}

#[test]
fn append_block_numbers_blocks_and_keeps_the_insertion_point() {
    let mut generator = IrGenerator::new();
    assert_eq!(generator.append_block(), 0);
    assert_eq!(generator.append_block(), 1);
    assert_eq!(generator.append_block(), 2);
    assert_eq!(generator.block_count(), 3);
    assert_eq!(generator.current_block(), 0);
    assert!(generator.instructions(2).is_empty());
}

#[test]
fn emit_appends_to_the_current_block_and_returns_the_position() {
    let mut generator = IrGenerator::new();
    generator.append_block();
    generator.append_block();
    let first = generator.emit(Instruction::Iconst(7));
    let second = generator.emit(Instruction::Iconst(8));
    assert_eq!(first, ValueHandle { block: 0, index: 0 });
    assert_eq!(second, ValueHandle { block: 0, index: 1 });
    assert_eq!(generator.instructions(0), &vec![Instruction::Iconst(7), Instruction::Iconst(8)]);
    assert!(generator.instructions(1).is_empty());
}

#[test]
fn seek_returns_to_an_older_block_without_disturbing_newer_ones() {
    let mut generator = IrGenerator::new();
    let a = generator.append_block();
    let b = generator.append_block();
    generator.seek(b);
    let in_b = generator.emit(Instruction::Iconst(1));
    generator.seek(a);
    let in_a = generator.emit(Instruction::Iconst(2));
    generator.seek(b);
    let again = generator.emit(Instruction::Reti(in_b));
    assert_eq!(generator.current_block(), b);
    assert_eq!(in_b, ValueHandle { block: 1, index: 0 });
    assert_eq!(in_a, ValueHandle { block: 0, index: 0 });
    assert_eq!(again, ValueHandle { block: 1, index: 1 });
    assert_eq!(generator.instructions(a), &vec![Instruction::Iconst(2)]);
    assert_eq!(
        generator.instructions(b),
        &vec![Instruction::Iconst(1), Instruction::Reti(ValueHandle { block: 1, index: 0 })]
    );
}

#[test]
fn scopes_come_off_in_reverse_order() {
    let mut generator = IrGenerator::new();
    let root = Scope::new(ScopeKind::Root, 0, 1);
    let inner = Scope::new(ScopeKind::Loop, 2, 3);
    generator.push_scope(root);
    generator.push_scope(inner);
    assert_eq!(generator.scope_depth(), 2);
    assert_eq!(generator.pop_scope(), inner);
    assert_eq!(generator.pop_scope(), root);
    assert_eq!(generator.scope_depth(), 0);
}

#[test]
fn nearest_finds_the_innermost_scope_of_a_kind() {
    let mut generator = IrGenerator::new();
    assert_eq!(generator.nearest(ScopeKind::Loop), None);
    generator.push_scope(Scope::new(ScopeKind::Root, 0, 1));
    assert_eq!(generator.nearest(ScopeKind::Loop), None);
    generator.push_scope(Scope::new(ScopeKind::Loop, 2, 3));
    generator.push_scope(Scope::new(ScopeKind::Block, 4, 5));
    generator.push_scope(Scope::new(ScopeKind::Loop, 6, 7));
    generator.push_scope(Scope::new(ScopeKind::Block, 8, 9));
    assert_eq!(generator.nearest(ScopeKind::Loop), Some(Scope::new(ScopeKind::Loop, 6, 7)));
    assert_eq!(generator.nearest(ScopeKind::Block), Some(Scope::new(ScopeKind::Block, 8, 9)));
    assert_eq!(generator.nearest(ScopeKind::Root), Some(Scope::new(ScopeKind::Root, 0, 1)));
    generator.pop_scope();
    generator.pop_scope();
    assert_eq!(generator.nearest(ScopeKind::Loop), Some(Scope::new(ScopeKind::Loop, 2, 3)));
    assert_eq!(generator.nearest(ScopeKind::Block), Some(Scope::new(ScopeKind::Block, 4, 5)));
}

#[test]
fn every_declaration_gets_a_fresh_slot() {
    let mut generator = IrGenerator::new();
    assert_eq!(generator.declare_variable(String::from("x"), 5), 0);
    assert_eq!(generator.declare_variable(String::from("y"), 0), 1);
    assert_eq!(generator.declare_variable(String::from("x"), -3), 2);
    assert_eq!(generator.variable_count(), 3);
    assert_eq!(generator.variable(0).name, "x");
    assert_eq!(generator.variable(0).initial, 5);
    assert_eq!(generator.variable(2).name, "x");
    assert_eq!(generator.variable(2).initial, -3);
}

#[test]
fn resolve_gives_the_latest_declaration() {
    let mut generator = IrGenerator::new();
    assert_eq!(generator.resolve(&String::from("x")), None);
    generator.declare_variable(String::from("x"), 0);
    generator.declare_variable(String::from("y"), 0);
    assert_eq!(generator.resolve(&String::from("x")), Some(0));
    assert_eq!(generator.resolve(&String::from("y")), Some(1));
    generator.declare_variable(String::from("x"), 0);
    assert_eq!(generator.resolve(&String::from("x")), Some(2));
    assert_eq!(generator.resolve(&String::from("z")), None);
    assert_eq!(generator.resolve(&String::from("")), None);
}

#[test]
fn every_operator_has_its_opcode() {
    assert_eq!(Opcode::from_kind(BinOpKind::Add), Opcode::Add);
    assert_eq!(Opcode::from_kind(BinOpKind::Sub), Opcode::Sub);
    assert_eq!(Opcode::from_kind(BinOpKind::Mul), Opcode::Mul);
    assert_eq!(Opcode::from_kind(BinOpKind::Div), Opcode::Div);
    assert_eq!(Opcode::from_kind(BinOpKind::Equal), Opcode::Equal);
    assert_eq!(Opcode::from_kind(BinOpKind::NotEqual), Opcode::NotEqual);
    assert_eq!(Opcode::from_kind(BinOpKind::Greater), Opcode::Greater);
    assert_eq!(Opcode::from_kind(BinOpKind::GreaterEqual), Opcode::GreaterEqual);
    assert_eq!(Opcode::from_kind(BinOpKind::LesserEqual), Opcode::LesserEqual);
    assert_eq!(Opcode::from_kind(BinOpKind::Lesser), Opcode::Lesser);
    assert_eq!(Opcode::from_kind(BinOpKind::LShift), Opcode::LShift);
    assert_eq!(Opcode::from_kind(BinOpKind::RShift), Opcode::RShift);
}
