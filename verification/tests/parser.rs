use accvm::parser::{
    parse_char, parse_destination, parse_label, parse_line, parse_name, parse_operation,
    parse_source, parse_statement, Destination, Operation, Source, Statement,
};

#[test]
fn parser_test_parse_name() {
    // "this_is_an_outrage!" is not a name through to its end: the '!' is
    // left over.
    let (rest, _) = parse_name(b"this_is_an_outrage!").unwrap();
    assert_ne!(rest, b"");
    assert_eq!(
        parse_name(b"This_is_just_Fine"),
        Ok((&b""[..], &b"This_is_just_Fine"[..]))
    );
}

#[test]
fn test_parse_char() {
    assert!(parse_char(b"'").is_err());
    assert!(parse_char(b"'a").is_err());
    assert!(parse_char(b"a'").is_err());
    assert!(parse_char(b"a").is_err());
    assert!(parse_char(b"").is_err());
    assert_eq!(parse_char(b"'a'"), Ok((&b""[..], 0x61)));
    assert_eq!(
        parse_char(b"'a'thisi sa buncha JUNK"),
        Ok((&b"thisi sa buncha JUNK"[..], 0x61))
    );
}

#[test]
fn parser_test_parse_source() {
    assert!(parse_source(b"").is_err());
    assert!(parse_source(b"0").is_err());
    assert_eq!(parse_source(b"EXP"), Ok((&b""[..], Source::Expansion)));
    assert_eq!(parse_source(b"ACC"), Ok((&b""[..], Source::Accumulator)));
    assert_eq!(parse_source(b"RAM"), Ok((&b""[..], Source::Memory)));
    assert_eq!(parse_source(b"00"), Ok((&b""[..], Source::Operand(0x00))));
    assert_eq!(
        parse_source(b"lo@my_label"),
        Ok((&b""[..], Source::LabelLo(b"my_label".to_vec())))
    );
    assert_eq!(
        parse_source(b"hi@my_label"),
        Ok((&b""[..], Source::LabelHi(b"my_label".to_vec())))
    );
    assert_eq!(parse_source(b"5F"), Ok((&b""[..], Source::Operand(0x5F))));
}

#[test]
fn parser_test_parse_destination() {
    assert_eq!(parse_destination(b"RAM"), Ok((&b""[..], Destination::Memory)));
    assert_eq!(
        parse_destination(b"RAM.low"),
        Ok((&b""[..], Destination::MemAddressLo))
    );
    assert_eq!(
        parse_destination(b"RAM.high"),
        Ok((&b""[..], Destination::MemAddressHi))
    );
    assert_eq!(
        parse_destination(b"ACC"),
        Ok((&b""[..], Destination::Accumulator))
    );
    assert_eq!(
        parse_destination(b"ACC.plus"),
        Ok((&b""[..], Destination::AccumulatorPlus))
    );
    assert_eq!(
        parse_destination(b"ACC.nand"),
        Ok((&b""[..], Destination::AccumulatorNand))
    );
    assert_eq!(
        parse_destination(b"PC"),
        Ok((&b""[..], Destination::ProgramCounter))
    );
    assert_eq!(
        parse_destination(b"PC.latch"),
        Ok((&b""[..], Destination::ProgramCounterLatch))
    );
    assert_eq!(parse_destination(b"LED"), Ok((&b""[..], Destination::Led)));
    assert_eq!(
        parse_destination(b"carry.set"),
        Ok((&b""[..], Destination::CarrySet))
    );
    assert_eq!(
        parse_destination(b"carry.reset"),
        Ok((&b""[..], Destination::CarryReset))
    );
}

#[test]
fn test_parse_destination_serial() {
    assert_eq!(parse_destination(b"SER"), Ok((&b""[..], Destination::Serial)));
}

#[test]
fn parser_test_parse_operation() {
    assert!(parse_operation(b"-> RAM").is_err());
    assert!(parse_operation(b"RAM -> : if_carry").is_err());
    assert!(parse_operation(b"-> : ").is_err());
    assert!(parse_operation(b"RAM.low -> RAM").is_err());
    assert_eq!(
        parse_operation(b"5F -> ACC // Comment"),
        Ok((
            &b" // Comment"[..],
            Operation {
                src: Source::Operand(0x5F),
                dest: Destination::Accumulator,
                cond_1: false,
                cond_carry: false,
            }
        ))
    );
    assert_eq!(
        parse_operation(b"'q' -> RAM // Comment"),
        Ok((
            &b" // Comment"[..],
            Operation {
                src: Source::Operand(0x71),
                dest: Destination::Memory,
                cond_1: false,
                cond_carry: false,
            }
        ))
    );
    assert_eq!(
        parse_operation(b"RAM -> RAM : if_carry // Comment"),
        Ok((
            &b" // Comment"[..],
            Operation {
                src: Source::Memory,
                dest: Destination::Memory,
                cond_1: false,
                cond_carry: true,
            }
        ))
    );
    assert_eq!(
        parse_operation(b"lo@some_label -> ACC.nand : if_carry | if_1 // Comment"),
        Ok((
            &b" // Comment"[..],
            Operation {
                src: Source::LabelLo(b"some_label".to_vec()),
                dest: Destination::AccumulatorNand,
                cond_1: true,
                cond_carry: true,
            }
        ))
    );
}

#[test]
fn parser_test_parse_label() {
    assert!(parse_label(b"").is_err());
    assert!(parse_label(b":").is_err());
    assert_eq!(
        parse_label(b"thisisalabel:"),
        Ok((&b""[..], b"thisisalabel".to_vec()))
    );
}

#[test]
fn parser_test_parse_statement() {
    assert_eq!(
        parse_statement(b"ACC -> ACC"),
        Ok((
            &b""[..],
            Statement::Operation(Operation {
                src: Source::Accumulator,
                dest: Destination::Accumulator,
                cond_carry: false,
                cond_1: false,
            })
        ))
    );
    assert_eq!(
        parse_statement(b"thisisalabel:"),
        Ok((&b""[..], Statement::Label(b"thisisalabel".to_vec())))
    );
}

#[test]
fn parser_test_parse_line() {
    assert_eq!(
        parse_line(b"RAM -> RAM : if_carry // Comment"),
        Ok((
            &b" // Comment"[..],
            Some(Statement::Operation(Operation {
                src: Source::Memory,
                dest: Destination::Memory,
                cond_1: false,
                cond_carry: true,
            }))
        ))
    );
    assert_eq!(
        parse_line(b"this_is_a_label:"),
        Ok((&b""[..], Some(Statement::Label(b"this_is_a_label".to_vec()))))
    );
    assert_eq!(parse_line(b"//"), Ok((&b""[..], None)));
    assert_eq!(
        parse_line(b"// This is a comment"),
        Ok((&b" This is a comment"[..], None))
    );
    assert_eq!(parse_line(b""), Ok((&b""[..], None)));
    assert_eq!(parse_line(b"\t\t     "), Ok((&b""[..], None)));
}

#[test]
fn test_parser_tolerance() {
    // Comment and blank forms all yield no statement.
    assert_eq!(parse_line(b"% anything"), Ok((&b" anything"[..], None)));
    assert_eq!(parse_line(b"%"), Ok((&b""[..], None)));
    assert_eq!(parse_line(b"   "), Ok((&b""[..], None)));
    // Trailing text after a valid operation is left over, not an error.
    let (rest, st) = parse_line(b"5F -> LED // comment").unwrap();
    assert!(st.is_some());
    assert_eq!(rest, b" // comment");
    // A line that is none of these is an error.
    assert!(parse_line(b"  x").is_err());
    assert!(parse_line(b"?? -> LED").is_err());
}
