use disasm_util::{canonical_text, Disasm, Instruction, Section, Symbol};

fn owned(lines: &[&str]) -> Vec<String> {
    lines.iter().map(|l| l.to_string()).collect()
}

#[test]
fn from_lines_empty_vector_fails() {
    let result = Disasm::from_lines(Vec::new());
    assert_eq!(
        result,
        Err("Error, the file does not contain any text".to_string())
    );
}

#[test]
fn from_lines_incorrectly_formatted_first_line_fails() {
    let lines = Vec::from(["New line with incorrect formatting".to_string()]);
    let result = Disasm::from_lines(lines);
    assert_eq!(
        result,
        Err("Incorrect format for the first line".to_string())
    );
}

#[test]
fn from_lines_only_first_line_ok() {
    let lines = Vec::from([r"folder\file:     file format some_format   ".to_string()]);
    let result = Disasm::from_lines(lines);
    assert_eq!(
        result,
        Ok(Disasm {
            file_name: r"folder\file".to_string(),
            file_format: "some_format".to_string(),
            sections: Vec::new(),
        })
    );
}

#[test]
fn from_lines_simple_corect_file_ok() {
    let lines: Vec<String> = owned(&[
        "  ",
        " ",
        "",
        "folder\\file:     file format some_format   ",
        "",
        " ",
        "Disassembly of section sec1:",
        "",
        "",
        "",
        "<sym1>:",
        "\topc1 ",
        "\topc2    %opr1,%opr2",
        "\topc3    %opr3                   # comment1",
        "",
        "<sym2>:",
        "    opc4   %opr4  # comment2 ",
        " ",
        "Disassembly of section sec2:",
        "",
        "<sym3>:",
        "",
    ]);

    let result = Disasm::from_lines(lines);

    let mut sec1 = Section::new("sec1");
    sec1.add_symbol(Symbol::new("<sym1>"));
    let _ = sec1.add_instruction(Instruction::new("opc1", "", ""));
    let _ = sec1.add_instruction(Instruction::new("opc2", "%opr1,%opr2", ""));
    let _ = sec1.add_instruction(Instruction::new("opc3", "%opr3", "comment1"));
    sec1.add_symbol(Symbol::new("<sym2>"));
    let _ = sec1.add_instruction(Instruction::new("opc4", "%opr4", "comment2"));
    let mut sec2 = Section::new("sec2");
    sec2.add_symbol(Symbol::new("<sym3>"));

    assert_eq!(
        result,
        Ok(Disasm {
            file_name: "folder\\file".to_string(),
            file_format: "some_format".to_string(),
            sections: Vec::from([sec1, sec2]),
        })
    );
}

#[test]
fn from_lines_instruction_before_section_fails() {
    let lines: Vec<String> = owned(&["folder\\file:     file format some_format   ", "\topc1 "]);

    let result = Disasm::from_lines(lines);

    assert_eq!(
        result,
        Err("Attempted to add an instruction without first defining a section".to_string())
    );
}

#[test]
fn from_lines_symbol_before_section_fails() {
    let lines: Vec<String> = owned(&["folder\\file:     file format some_format   ", "<sym1>:"]);

    let result = Disasm::from_lines(lines);

    assert_eq!(
        result,
        Err("Attempted to add a symbol without first defining a section".to_string())
    );
}

#[test]
fn from_lines_incorrectly_formatted_section_name_start_fails() {
    let lines: Vec<String> = owned(&[
        "folder\\file:     file format some_format   ",
        "gibberish of section sec1:",
    ]);

    let result = Disasm::from_lines(lines);

    assert_eq!(
        result,
        Err("Unrecognized format for the following line: 'gibberish of section sec1:'".to_string())
    );
}

#[test]
fn from_lines_incorrectly_formatted_section_name_end_fails() {
    let lines: Vec<String> = owned(&[
        "folder\\file:     file format some_format   ",
        "Disassembly of section sec1:gibberish",
    ]);

    let result = Disasm::from_lines(lines);

    assert_eq!(
        result,
        Err("Unrecognized format for the following line: 'Disassembly of section sec1:gibberish'"
            .to_string())
    );
}

#[test]
fn from_lines_incorrectly_formatted_symbol_name_start_fails() {
    let lines: Vec<String> = owned(&[
        "folder\\file:     file format some_format   ",
        "Disassembly of section sec1:",
        "gibberish<sym1>:",
    ]);

    let result = Disasm::from_lines(lines);

    assert_eq!(
        result,
        Err("Unrecognized format for the following line: 'gibberish<sym1>:'".to_string())
    );
}

#[test]
fn from_lines_incorrectly_formatted_symbol_name_end_fails() {
    let lines: Vec<String> = owned(&[
        "folder\\file:     file format some_format   ",
        "Disassembly of section sec1:",
        "<sym1>:gibberish",
    ]);

    let result = Disasm::from_lines(lines);

    assert_eq!(
        result,
        Err("Unrecognized format for the following line: '<sym1>:gibberish'".to_string())
    );
}

#[test]
fn from_lines_incorrectly_formatted_instruction_missing_leading_space_fails() {
    let lines: Vec<String> = owned(&[
        "folder\\file:     file format some_format   ",
        "Disassembly of section sec1:",
        "<sym1>:",
        "nop",
    ]);

    let result = Disasm::from_lines(lines);

    assert_eq!(
        result,
        Err("Unrecognized format for the following line: 'nop'".to_string())
    );
}

#[test]
fn from_lines_incorrectly_formatted_instruction_bad_opcode_fails() {
    let lines: Vec<String> = owned(&[
        "folder\\file:     file format some_format   ",
        "Disassembly of section sec1:",
        "<sym1>:",
        " n%op",
    ]);

    let result = Disasm::from_lines(lines);

    assert_eq!(
        result,
        Err("Unrecognized format for the following line: ' n%op'".to_string())
    );
}

#[test]
fn from_lines_unsorted_sections_ok() {
    let lines: Vec<String> = owned(&[
        "folder\\file:     file format some_format   ",
        "Disassembly of section abb:",
        "<zsym1>:",
        "<asym2>:",
        "<bsym4>:",
        "<bsym3>:",
        "Disassembly of section aaa:",
        "<sym3>:",
        "<sym1>:",
        "Disassembly of section adc:",
        "Disassembly of section abc:",
        "Disassembly of section acc:",
    ]);

    let result = Disasm::from_lines(lines);

    let mut sec1 = Section::new("aaa");
    sec1.add_symbol(Symbol::new("<sym1>"));
    sec1.add_symbol(Symbol::new("<sym3>"));
    let mut sec2 = Section::new("abb");
    sec2.add_symbol(Symbol::new("<asym2>"));
    sec2.add_symbol(Symbol::new("<bsym3>"));
    sec2.add_symbol(Symbol::new("<bsym4>"));
    sec2.add_symbol(Symbol::new("<zsym1>"));
    let sec3 = Section::new("abc");
    let sec4 = Section::new("acc");
    let sec5 = Section::new("adc");

    assert_eq!(
        result,
        Ok(Disasm {
            file_name: "folder\\file".to_string(),
            file_format: "some_format".to_string(),
            sections: Vec::from([sec1, sec2, sec3, sec4, sec5]),
        })
    )
}

#[test]
fn to_string_ok() {
    let mut sec1 = Section::new("aaa");
    sec1.add_symbol(Symbol::new("<sym1>"));
    sec1.add_symbol(Symbol::new("<sym3>"));
    let _ = sec1.add_instruction(Instruction::new("opc5", "", ""));
    let _ = sec1.add_instruction(Instruction::new("opc3", "", ""));
    let sec2 = Section::new("abc");
    let mut sec3 = Section::new("abb");
    sec3.add_symbol(Symbol::new("<zsym2>"));
    let _ = sec3.add_instruction(Instruction::new("opc1", "", ""));
    let _ = sec3.add_instruction(Instruction::new("opc2", "opr1,opr2", ""));
    let _ = sec3.add_instruction(Instruction::new("opc4", "opr3", "comment1"));
    sec3.add_symbol(Symbol::new("<asym1>"));
    let disasm = Disasm {
        file_name: "folder\\file".to_string(),
        file_format: "some_format".to_string(),
        sections: Vec::from([sec1, sec2, sec3]),
    };

    assert_eq!(
        disasm.to_string(),
        "aaa:\n    <sym1>:\n    <sym3>:\n        opc5\n        opc3\nabc:\nabb:\n    <zsym2>:\n        opc1\n        opc2\n        opc4\n    <asym1>:\n"
        .to_string()
    )
}
