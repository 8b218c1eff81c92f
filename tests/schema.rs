use donet::dcfile::{DCField, DCFieldOwner, DCFieldType, DCFile, DCFileError, DCImport, DCStruct, DClass};
use donet::dclexer::{DCKeyword, DCLexErrorKind, DCToken, Lexer};
use donet::dctype::{
    DCNumber, DCNumberType, DCNumericRange, DCNumericType, DCTypeDefinition, DCTypedefType,
};
use donet::hashgen::DCHashGenerator;

fn plain_field(name: &str) -> DCField {
    DCField::new(
        String::from(name),
        DCFieldType::Plain(DCTypeDefinition::new_sized(DCTypedefType::TUInt32, 4)),
    )
}

fn int16_type(min: i64, max: i64) -> DCNumericType {
    let mut t = DCNumericType::new(DCTypeDefinition::new_sized(DCTypedefType::TInt16, 2));
    assert_eq!(t.set_range(DCNumericRange::new_integer_range(min, max)), Ok(()));
    t
}

#[test]
fn dc_keyword_test() {
    let test_string: String = String::from("keyword test;");
    let target = [
        DCToken::Keyword(String::from("keyword")),
        DCToken::Identifier(String::from("test")),
        DCToken::Semicolon,
    ];
    let mut lexer = Lexer::new(&test_string);
    let mut i: usize = 0;
    while let Some(next) = lexer.next() {
        let (token, _span) = next.unwrap();
        assert_eq!(token, target[i]);
        i += 1;
    }
    assert_eq!(i, target.len());
}

#[test]
fn lexer_skips_blanks_and_comments_and_counts_lines() {
    let src = "dclass Foo { // a comment\n  uint16 x; /* two\nlines */ int8 y;\n}";
    let mut lexer = Lexer::new(src);
    let mut tokens = Vec::new();
    while let Some(next) = lexer.next() {
        tokens.push(next.unwrap());
    }
    let kinds: Vec<DCToken> = tokens.iter().map(|t| t.0.clone()).collect();
    assert_eq!(
        kinds,
        vec![
            DCToken::Keyword(String::from("dclass")),
            DCToken::Identifier(String::from("Foo")),
            DCToken::OpenBraces,
            DCToken::IntType(String::from("uint16")),
            DCToken::Identifier(String::from("x")),
            DCToken::Semicolon,
            DCToken::IntType(String::from("int8")),
            DCToken::Identifier(String::from("y")),
            DCToken::Semicolon,
            DCToken::CloseBraces,
        ]
    );
    assert_eq!(tokens[0].1.line, 1);
    assert_eq!((tokens[1].1.min, tokens[1].1.max), (7, 10));
    assert_eq!(tokens[3].1.line, 2);
    assert_eq!(tokens[6].1.line, 3);
    assert_eq!(tokens[9].1.line, 4);
}

#[test]
fn lexer_literals() {
    let src = "123 017 0x1F 0b101 1.5 .25 'a' \"str\" \\x41 \\n char float64 string blob keywords % * + - / ( ) [ ] , = :";
    let mut lexer = Lexer::new(src);
    let mut kinds = Vec::new();
    while let Some(next) = lexer.next() {
        kinds.push(next.unwrap().0);
    }
    assert_eq!(
        kinds,
        vec![
            DCToken::DecimalLiteral(123),
            DCToken::OctalLiteral(String::from("017")),
            DCToken::HexLiteral(String::from("0x1F")),
            DCToken::BinaryLiteral(String::from("0b101")),
            DCToken::FloatLiteral(String::from("1.5")),
            DCToken::FloatLiteral(String::from(".25")),
            DCToken::CharacterLiteral('a'),
            DCToken::StringLiteral(String::from("\"str\"")),
            DCToken::EscapeCharacter(String::from("\\x41")),
            DCToken::EscapeCharacter(String::from("\\n")),
            DCToken::CharType,
            DCToken::FloatType,
            DCToken::StringType,
            DCToken::BlobType,
            DCToken::Identifier(String::from("keywords")),
            DCToken::Modulus,
            DCToken::Multiplication,
            DCToken::Addition,
            DCToken::Subtraction,
            DCToken::Division,
            DCToken::OpenParenthesis,
            DCToken::CloseParenthesis,
            DCToken::OpenBrackets,
            DCToken::CloseBrackets,
            DCToken::Comma,
            DCToken::Equals,
            DCToken::Colon,
        ]
    );
}

#[test]
fn lexer_errors_are_fatal() {
    let mut lexer = Lexer::new("x 99999999999999999999 y");
    assert_eq!(lexer.next().unwrap().unwrap().0, DCToken::Identifier(String::from("x")));
    let err = lexer.next().unwrap().unwrap_err();
    assert_eq!(err.kind, DCLexErrorKind::LiteralOutOfRange);
    assert_eq!((err.span.min, err.span.max, err.span.line), (2, 22, 1));
    assert!(lexer.next().is_none());

    let mut lexer = Lexer::new("\n a # b");
    assert!(lexer.next().unwrap().is_ok());
    let err = lexer.next().unwrap().unwrap_err();
    assert_eq!(err.kind, DCLexErrorKind::UnexpectedCharacter);
    assert_eq!((err.span.min, err.span.max, err.span.line), (4, 5, 2));
    assert!(lexer.next().is_none());

    let mut lexer = Lexer::new("9223372036854775807");
    assert_eq!(lexer.next().unwrap().unwrap().0, DCToken::DecimalLiteral(i64::MAX));
}

#[test]
fn hash_generator_mixes_in_order() {
    let empty = DCHashGenerator::new();
    assert_eq!(empty.get_hash(), 2166136261);
    let mut one = DCHashGenerator::new();
    one.add_int(0);
    assert_eq!(one.get_hash(), 84696351);
    let mut a = DCHashGenerator::new();
    a.add_int(1);
    a.add_int(2);
    let mut b = DCHashGenerator::new();
    b.add_int(2);
    b.add_int(1);
    assert_eq!(a.get_hash(), 3983810698);
    assert_eq!(b.get_hash(), 1551600396);
    let mut s = DCHashGenerator::new();
    s.add_string("ab");
    let mut t = DCHashGenerator::new();
    t.add_int(2);
    t.add_int(97);
    t.add_int(98);
    assert_eq!(s.get_hash(), t.get_hash());
}

#[test]
fn field_ids_are_unique_across_classes() {
    let mut file = DCFile::new();
    let mut a = DClass::new(String::from("A"));
    a.add_field(plain_field("f1"));
    let mut b = DClass::new(String::from("B"));
    b.add_field(plain_field("f2"));
    assert_eq!(file.add_dclass(a), Ok(0));
    assert_eq!(file.add_dclass(b), Ok(1));
    let f1 = file.get_dclass(0).unwrap().get_field(0).unwrap().get_field_id();
    let f2 = file.get_dclass(1).unwrap().get_field(0).unwrap().get_field_id();
    assert_ne!(f1, f2);
    assert_eq!((f1, f2), (0, 1));
    assert_eq!(file.add_field(DCFieldOwner::Class(0), plain_field("f3")), Ok(2));
    assert_eq!(file.get_dclass(0).unwrap().get_num_fields(), 2);
    assert_eq!(file.add_field(DCFieldOwner::Class(5), plain_field("f4")), Err(DCFileError::UnknownOwner));
    let mut st = DCStruct::new(String::from("S"));
    st.add_field(plain_field("g"));
    assert_eq!(file.add_struct(st), Ok(()));
    assert_eq!(file.get_num_structs(), 1);
    assert_eq!(file.add_field(DCFieldOwner::Struct(0), plain_field("h")), Ok(4));
    assert_eq!(file.get_struct(0).unwrap().get_num_fields(), 2);
}

#[test]
fn class_ids_follow_declaration_order() {
    let mut file = DCFile::new();
    for i in 0..65535usize {
        assert_eq!(file.get_next_dclass_id(), Ok(i as u16));
        assert_eq!(file.add_dclass(DClass::new(String::new())), Ok(i as u16));
    }
    assert_eq!(file.get_next_dclass_id(), Err(DCFileError::IdSpaceExhausted));
    assert_eq!(file.add_dclass(DClass::new(String::new())), Err(DCFileError::IdSpaceExhausted));
    assert_eq!(file.get_num_dclasses(), 65535);
}

#[test]
fn class_lookups_agree() {
    let mut file = DCFile::new();
    assert_eq!(file.add_dclass(DClass::new(String::from("Avatar"))), Ok(0));
    assert_eq!(file.add_dclass(DClass::new(String::from("Zone"))), Ok(1));
    let by_index = file.get_dclass(1).unwrap().get_dclass_id();
    let by_id = file.get_dclass_by_id(1).unwrap().get_dclass_id();
    let by_name = file.get_dclass_by_name("Zone").unwrap().get_dclass_id();
    assert_eq!((by_index, by_id, by_name), (1, 1, 1));
    assert_eq!(file.get_dclass_by_name("Zone").unwrap().get_name(), "Zone");
    assert!(file.get_dclass_by_name("Missing").is_none());
    assert!(file.get_dclass_by_id(2).is_none());
    assert!(file.get_dclass(2).is_none());
}

fn sample_file(virtual_inheritance: bool, extra_field: bool) -> DCFile {
    let mut file = DCFile::with_flags(virtual_inheritance, true);
    let mut a = DClass::new(String::from("A"));
    a.add_field(plain_field("f1"));
    let mut b = DClass::new(String::from("B"));
    b.add_parent(0);
    b.add_field(DCField::new(String::from("f2"), DCFieldType::Numeric(int16_type(-5, 5))));
    assert_eq!(file.add_dclass(a), Ok(0));
    assert_eq!(file.add_dclass(b), Ok(1));
    if extra_field {
        assert_eq!(file.add_field(DCFieldOwner::Class(1), plain_field("f3")), Ok(2));
    }
    file
}

#[test]
fn fingerprints_follow_content_and_flags() {
    let h1 = sample_file(true, false).get_hash();
    let h2 = sample_file(true, false).get_hash();
    assert_eq!(h1, h2);
    assert_ne!(h1, sample_file(true, true).get_hash());
    assert_ne!(h1, sample_file(false, false).get_hash());
    let mut file = sample_file(true, false);
    file.add_python_import(DCImport::new(String::from("mod"), vec![String::from("X")]));
    assert_eq!(file.get_num_imports(), 1);
    assert_eq!(file.get_python_import(0).unwrap().python_module, "mod");
    assert_eq!(file.get_hash(), h1);
}

#[test]
fn type_definition_accessors() {
    let mut t = DCTypeDefinition::new();
    assert!(matches!(t.get_dc_type(), DCTypedefType::TInvalid));
    assert!(t.is_variable_length());
    assert!(!t.has_alias());
    assert_eq!(t.get_alias(), Err(()));
    t.set_alias(String::from("money"));
    assert_eq!(t.get_alias(), Ok(String::from("money")));
    assert_eq!(DCTypedefType::TChar.code(), 8);
    assert_eq!(DCTypedefType::TVarBlob32.code(), 20);
    let sized = DCTypeDefinition::new_sized(DCTypedefType::TInt32, 4);
    assert_eq!(sized.get_size(), 4);
    assert!(!sized.is_variable_length());

    let mut with_alias = DCHashGenerator::new();
    t.generate_hash(&mut with_alias);
    let mut by_hand = DCHashGenerator::new();
    by_hand.add_int(21);
    by_hand.add_string("money");
    assert_eq!(with_alias.get_hash(), by_hand.get_hash());
}

#[test]
fn range_bounds_are_inclusive() {
    let t = int16_type(-10, 20);
    assert!(t.has_range());
    assert_eq!(t.within_range((-10i16).to_le_bytes().to_vec()), Ok(()));
    assert_eq!(t.within_range(20i16.to_le_bytes().to_vec()), Ok(()));
    assert_eq!(t.within_range((-11i16).to_le_bytes().to_vec()), Err(()));
    assert_eq!(t.within_range(21i16.to_le_bytes().to_vec()), Err(()));
    assert_eq!(t.within_range(vec![0]), Err(()));
    assert_eq!(t.within_range(vec![0, 0, 0]), Err(()));
}

#[test]
fn divisor_scales_the_range() {
    let mut t = int16_type(-1, 2);
    assert_eq!(t.set_divisor(10), Ok(()));
    assert_eq!(t.get_divisor(), 10);
    assert_eq!(t.within_range((-10i16).to_le_bytes().to_vec()), Ok(()));
    assert_eq!(t.within_range(20i16.to_le_bytes().to_vec()), Ok(()));
    assert_eq!(t.within_range(21i16.to_le_bytes().to_vec()), Err(()));
    assert_eq!(t.set_divisor(0), Err(()));
    assert_eq!(t.get_divisor(), 10);
    assert_eq!(t.within_range(20i16.to_le_bytes().to_vec()), Ok(()));
    let mut big = DCNumericType::new(DCTypeDefinition::new_sized(DCTypedefType::TInt64, 8));
    assert_eq!(big.set_range(DCNumericRange::new_integer_range(0, i64::MAX)), Ok(()));
    assert_eq!(big.set_divisor(2), Err(()));
    assert_eq!(big.get_divisor(), 1);
}

#[test]
fn modulus_and_unsigned_values() {
    let mut t = DCNumericType::new(DCTypeDefinition::new_sized(DCTypedefType::TUInt8, 1));
    assert!(!t.has_modulus());
    assert_eq!(t.set_modulus(0), Err(()));
    assert_eq!(t.set_modulus(5), Ok(()));
    assert_eq!(t.get_modulus(), 5);
    assert_eq!(t.within_range(vec![15]), Ok(()));
    assert_eq!(t.within_range(vec![16]), Err(()));
    assert_eq!(t.set_range(DCNumericRange::new_unsigned_integer_range(10, 20)), Ok(()));
    assert_eq!(t.within_range(vec![5]), Err(()));
    assert_eq!(t.within_range(vec![20]), Ok(()));
    assert_eq!(t.data_to_number(vec![200]), (true, DCNumber::UInt(200)));
    let signed = DCNumericType::new(DCTypeDefinition::new_sized(DCTypedefType::TInt8, 1));
    assert_eq!(signed.data_to_number(vec![200]), (true, DCNumber::Int(-56)));
    let float = DCNumericType::new(DCTypeDefinition::new_sized(DCTypedefType::TFloat32, 4));
    assert!(!float.data_to_number(vec![0, 0, 0, 0]).0);
    let r = DCNumericRange::new();
    assert!(r.is_empty());
    assert!(r.contains(DCNumber::new_integer(3)));
    assert!(!DCNumericRange::new_integer_range(0, 5).contains(DCNumber::new_unsigned_integer(3)));
    assert_eq!(DCNumber::new().number_type(), DCNumberType::Unset);
}

#[test]
fn field_keywords() {
    let mut f = plain_field("x");
    assert!(!f.has_keyword(DCKeyword::DB));
    f.add_keyword(DCKeyword::DB);
    f.add_keyword(DCKeyword::Broadcast);
    assert!(f.has_keyword(DCKeyword::DB));
    assert!(!f.has_keyword(DCKeyword::ClSend));
}

#[test]
fn lexer_edge_cases() {
    let mut lexer = Lexer::new("/* open a/b 0x 09");
    let mut kinds = Vec::new();
    while let Some(next) = lexer.next() {
        kinds.push(next.unwrap().0);
    }
    assert_eq!(
        kinds,
        vec![
            DCToken::Division,
            DCToken::Multiplication,
            DCToken::Identifier(String::from("open")),
            DCToken::Identifier(String::from("a")),
            DCToken::Division,
            DCToken::Identifier(String::from("b")),
            DCToken::OctalLiteral(String::from("0")),
            DCToken::Identifier(String::from("x")),
            DCToken::OctalLiteral(String::from("0")),
            DCToken::DecimalLiteral(9),
        ]
    );
    let mut only_trivia = Lexer::new("  // nothing\n/* at */ \t");
    assert!(only_trivia.next().is_none());
}

#[test]
fn lexer_out_of_range_literal_span() {
    let mut lexer = Lexer::new("99999999999999999999");
    let err = lexer.next().unwrap().unwrap_err();
    assert_eq!(err.kind, DCLexErrorKind::LiteralOutOfRange);
    assert_eq!((err.span.min, err.span.max, err.span.line), (0, 20, 1));
    assert!(lexer.next().is_none());
}

#[test]
fn every_16_bit_field_id_is_used() {
    let mut file = DCFile::new();
    let mut big = DClass::new(String::from("Big"));
    for _ in 0..65535usize {
        big.add_field(plain_field("f"));
    }
    assert_eq!(file.add_dclass(big), Ok(0));
    assert_eq!(file.add_field(DCFieldOwner::Class(0), plain_field("last")), Ok(65535));
    assert_eq!(
        file.add_field(DCFieldOwner::Class(0), plain_field("extra")),
        Err(DCFileError::IdSpaceExhausted)
    );
    assert_eq!(file.get_dclass(0).unwrap().get_num_fields(), 65536);
}

#[test]
fn lexer_takes_the_longest_token() {
    let mut lexer = Lexer::new("1.5 0x1F 0b1 \\x41 12.");
    let mut kinds = Vec::new();
    while let Some(next) = lexer.next() {
        match next {
            Ok((tok, _)) => kinds.push(tok),
            Err(_) => break,
        }
    }
    assert_eq!(
        kinds,
        vec![
            DCToken::FloatLiteral(String::from("1.5")),
            DCToken::HexLiteral(String::from("0x1F")),
            DCToken::BinaryLiteral(String::from("0b1")),
            DCToken::EscapeCharacter(String::from("\\x41")),
            DCToken::DecimalLiteral(12),
        ]
    );
}
