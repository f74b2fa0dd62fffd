use midilang::compiler::MCompileError;
use midilang::parser::{MParseError, Position};
use midilang::text::{decimal, position, positions};

#[test]
fn numbers_are_written_in_decimal() {
    assert_eq!(decimal(0), "0");
    assert_eq!(decimal(7), "7");
    assert_eq!(decimal(10), "10");
    assert_eq!(decimal(1234567890), "1234567890");
    assert_eq!(decimal(100200), "100200");
    assert_eq!(decimal(usize::MAX), usize::MAX.to_string());
}

#[test]
fn positions_are_written_as_one_index_or_two() {
    assert_eq!(Position::new(3, 3).describe(), "(3)");
    assert_eq!(Position::new(3, 17).describe(), "(3,17)");
    assert_eq!(position(&Position::new(0, 0)), "(0)");
    assert_eq!(positions(&vec![]), "");
    assert_eq!(positions(&vec![Position::new(1, 1)]), "(1)");
    assert_eq!(
        positions(&vec![Position::new(1, 1), Position::new(2, 5), Position::new(10, 10)]),
        "(1), (2,5), (10)"
    );
}

#[test]
fn parse_errors_have_their_messages() {
    assert_eq!(MParseError::NoTracks.describe(), "File has no tracks to parse!");
    assert_eq!(MParseError::NonDiatonic.describe(), "Non Diatonic note found");
    assert_eq!(
        MParseError::DanglingLoop(Position::new(4, 4)).describe(),
        "Dangling loops starting at: (4)"
    );
    assert_eq!(
        MParseError::UnclosedLoop(vec![Position::new(0, 0), Position::new(12, 12)]).describe(),
        "Unclosed loops starting at: [(0), (12)]"
    );
    assert_eq!(MParseError::UnclosedLoop(vec![]).describe(), "Unclosed loops starting at: []");
}

#[test]
fn compile_errors_have_their_messages() {
    assert_eq!(
        MCompileError::UninitializedContext.describe(),
        "Compiler Context was not initialized!"
    );
    assert_eq!(
        MCompileError::LLVMError("No available targets".to_string()).describe(),
        "LLVM raised an error No available targets"
    );
    assert_eq!(MCompileError::LLVMError(String::new()).describe(), "LLVM raised an error ");
}
