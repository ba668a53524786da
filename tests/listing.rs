use disasm_util::{canonical_text, Disasm, Instruction, Section, Symbol};

fn owned(lines: &[&str]) -> Vec<String> {
    lines.iter().map(|l| l.to_string()).collect()
}

const HEADER: &str = "f: file format fmt";

#[test]
fn scenario_one_section_one_symbol() {
    let lines = owned(&[
        "f: file format fmt",
        "Disassembly of section sec1:",
        "<sym1>:",
        "\topc1",
        "\topc2 op1,op2",
    ]);
    let disasm = Disasm::from_lines(lines.clone()).unwrap();
    let mut sym = Symbol::new("<sym1>");
    sym.add_instruction(Instruction::new("opc1", "", ""));
    sym.add_instruction(Instruction::new("opc2", "op1,op2", ""));
    let mut sec = Section::new("sec1");
    sec.add_symbol(sym);
    assert_eq!(disasm.sections, vec![sec]);
    assert_eq!(disasm.file_name, "f");
    assert_eq!(disasm.file_format, "fmt");
    assert_eq!(
        disasm.to_string(),
        "sec1:\n    <sym1>:\n        opc1\n        opc2\n".to_string()
    );
    assert_eq!(
        canonical_text(lines),
        Ok("sec1:\n    <sym1>:\n        opc1\n        opc2\n".to_string())
    );
}

#[test]
fn scenario_sections_sorted_in_output() {
    let lines = owned(&[
        HEADER,
        "Disassembly of section bbb:",
        "Disassembly of section aaa:",
    ]);
    assert_eq!(canonical_text(lines), Ok("aaa:\nbbb:\n".to_string()));
}

#[test]
fn scenario_gibberish_section_line_unrecognized() {
    let lines = owned(&[HEADER, "gibberish of section sec1:"]);
    assert_eq!(
        Disasm::from_lines(lines),
        Err("Unrecognized format for the following line: 'gibberish of section sec1:'".to_string())
    );
}

#[test]
fn scenario_instruction_without_leading_whitespace_unrecognized() {
    let lines = owned(&[HEADER, "Disassembly of section sec1:", "<sym1>:", "opc1 opc2"]);
    assert_eq!(
        Disasm::from_lines(lines),
        Err("Unrecognized format for the following line: 'opc1 opc2'".to_string())
    );
}

#[test]
fn output_is_the_same_for_the_same_input() {
    let lines = owned(&[
        HEADER,
        "Disassembly of section .text:",
        "<main>:",
        "\tpush   %rbp",
        "\tmov    %rsp,%rbp",
        "Disassembly of section .init:",
        "<_init>:",
        "\tendbr64",
    ]);
    let first = canonical_text(lines.clone());
    let second = canonical_text(lines);
    assert_eq!(first, second);
    assert_eq!(
        first,
        Ok(".init:\n    <_init>:\n        endbr64\n.text:\n    <main>:\n        push\n        mov\n"
            .to_string())
    );
}

#[test]
fn sorting_a_parsed_listing_again_changes_nothing() {
    let lines = owned(&[
        HEADER,
        "Disassembly of section b:",
        "<z>:",
        "<a>:",
        "Disassembly of section a:",
        "<m>:",
        "\tnop",
    ]);
    let parsed = Disasm::from_lines(lines).unwrap();
    let mut again = Disasm::from_lines(owned(&[
        HEADER,
        "Disassembly of section b:",
        "<z>:",
        "<a>:",
        "Disassembly of section a:",
        "<m>:",
        "\tnop",
    ]))
    .unwrap();
    again.sort_sections();
    assert_eq!(again, parsed);
}

#[test]
fn sort_order_does_not_depend_on_input_order() {
    let orders = [
        ["adc", "abb", "acc", "abc"],
        ["abc", "acc", "abb", "adc"],
        ["abb", "abc", "acc", "adc"],
        ["adc", "acc", "abc", "abb"],
    ];
    for order in orders {
        let mut lines = vec![HEADER.to_string()];
        for name in order {
            lines.push(format!("Disassembly of section {name}:"));
            lines.push(format!("<{name}>:"));
        }
        for name in order.iter().rev() {
            lines.push(format!("Disassembly of section {name}:"));
        }
        let text = canonical_text(lines).unwrap();
        assert_eq!(
            text,
            "abb:\n    <abb>:\nabb:\nabc:\n    <abc>:\nabc:\nacc:\n    <acc>:\nacc:\nadc:\n    <adc>:\nadc:\n"
        );
    }
}

#[test]
fn symbol_before_any_section_is_missing_section() {
    let lines = owned(&[HEADER, "", "  <sym>:  ", "Disassembly of section s:"]);
    assert_eq!(
        Disasm::from_lines(lines),
        Err("Attempted to add a symbol without first defining a section".to_string())
    );
}

#[test]
fn instruction_after_section_before_symbol_is_missing_symbol() {
    let lines = owned(&[
        HEADER,
        "Disassembly of section s1:",
        "<a>:",
        "\tnop",
        "Disassembly of section s2:",
        "\tret",
    ]);
    assert_eq!(
        Disasm::from_lines(lines),
        Err("Attempted to add an instruction without first defining a symbol".to_string())
    );
}

#[test]
fn only_blank_lines_is_empty_input() {
    let lines = owned(&["", "   ", "\t", "\u{a0}\u{3000}"]);
    assert_eq!(
        canonical_text(lines),
        Err("Error, the file does not contain any text".to_string())
    );
}

#[test]
fn header_without_file_format_is_malformed() {
    for header in ["garbage text", "f: garbage", "f file format x", "f: file formatx"] {
        assert_eq!(
            Disasm::from_lines(owned(&[header, "Disassembly of section s:"])),
            Err("Incorrect format for the first line".to_string()),
            "{header}"
        );
    }
}

#[test]
fn header_fields_are_trimmed_format_and_verbatim_name() {
    let disasm = Disasm::from_lines(owned(&[" a.out :   file format   elf64-x86-64  "])).unwrap();
    assert_eq!(disasm.file_name, " a.out ");
    assert_eq!(disasm.file_format, "elf64-x86-64");
    assert_eq!(disasm.to_string(), "");
}

#[test]
fn header_name_stops_at_first_colon() {
    let disasm = Disasm::from_lines(owned(&["c:/x.o:  file format pe-x86-64"]));
    assert_eq!(disasm, Err("Incorrect format for the first line".to_string()));
    let disasm = Disasm::from_lines(owned(&["x.o:  file format a:b"])).unwrap();
    assert_eq!(disasm.file_name, "x.o");
    assert_eq!(disasm.file_format, "a:b");
}

#[test]
fn instruction_fields_split_at_last_whitespace() {
    let lines = owned(&[
        HEADER,
        "Disassembly of section .text:",
        "<_start>:",
        "\tbnd jmp <_init+0x20>",
        "\tcs nopw 0x0(%rax,%rax,1)",
        "\tret    ",
        "\tcall   *0x2fe2(%rip)        # 3fd8 <x>",
        "   # only a comment",
        "\u{a0}hlt",
    ]);
    let disasm = Disasm::from_lines(lines).unwrap();
    let mut sym = Symbol::new("<_start>");
    sym.add_instruction(Instruction::new("bnd jmp", "<_init+0x20>", ""));
    sym.add_instruction(Instruction::new("cs nopw", "0x0(%rax,%rax,1)", ""));
    sym.add_instruction(Instruction::new("ret", "", ""));
    sym.add_instruction(Instruction::new("call", "*0x2fe2(%rip)", "3fd8 <x>"));
    sym.add_instruction(Instruction::new("", "", "only a comment"));
    sym.add_instruction(Instruction::new("hlt", "", ""));
    let mut sec = Section::new(".text");
    sec.add_symbol(sym);
    assert_eq!(disasm.sections, vec![sec]);
    assert_eq!(
        disasm.to_string(),
        ".text:\n    <_start>:\n        bnd jmp\n        cs nopw\n        ret\n        call\n\n        hlt\n"
            .to_string()
    );
}

#[test]
fn opcode_with_uppercase_is_unrecognized() {
    let lines = owned(&[HEADER, "Disassembly of section s:", "<a>:", "\tNOP"]);
    assert_eq!(
        Disasm::from_lines(lines),
        Err("Unrecognized format for the following line: '\tNOP'".to_string())
    );
}

#[test]
fn marker_lines_are_trimmed_before_matching() {
    let lines = owned(&[HEADER, "   Disassembly of section .data.rel.ro:  ", "\t<>:\t", " \tnop"]);
    let disasm = Disasm::from_lines(lines).unwrap();
    let mut sym = Symbol::new("<>");
    sym.add_instruction(Instruction::new("nop", "", ""));
    let mut sec = Section::new(".data.rel.ro");
    sec.add_symbol(sym);
    assert_eq!(disasm.sections, vec![sec]);
}

#[test]
fn malformed_section_names_are_unrecognized() {
    for line in [
        "Disassembly of section :",
        "Disassembly of section .te-xt:",
        "Disassembly of section a b:",
        "Disassembly of section .text",
    ] {
        let lines = owned(&[HEADER, line]);
        assert_eq!(
            Disasm::from_lines(lines),
            Err(format!("Unrecognized format for the following line: '{line}'")),
        );
    }
}

#[test]
fn instruction_before_any_section_fails() {
    let lines = owned(&[HEADER, " nop", "Disassembly of section s:"]);
    assert_eq!(
        Disasm::from_lines(lines),
        Err("Attempted to add an instruction without first defining a section".to_string())
    );
}

#[test]
fn first_failure_is_reported() {
    let lines = owned(&[HEADER, "bad line", "<sym>:"]);
    assert_eq!(
        canonical_text(lines),
        Err("Unrecognized format for the following line: 'bad line'".to_string())
    );
}

#[test]
fn empty_names_sort_first() {
    let mut disasm = Disasm {
        file_name: String::new(),
        file_format: String::new(),
        sections: vec![Section::new("a"), Section::new(""), Section::new("A")],
    };
    disasm.sort_sections();
    assert_eq!(disasm.to_string(), ":\nA:\na:\n".to_string());
}

#[test]
fn direct_additions_need_a_parent() {
    let mut disasm = Disasm {
        file_name: String::new(),
        file_format: String::new(),
        sections: Vec::new(),
    };
    assert_eq!(
        disasm.add_symbol(Symbol::new("<s>")),
        Err("Attempted to add a symbol without first defining a section".to_string())
    );
    assert_eq!(
        disasm.add_instruction(Instruction::new("nop", "", "")),
        Err("Attempted to add an instruction without first defining a section".to_string())
    );
    disasm.add_section(Section::new("s"));
    assert_eq!(
        disasm.add_instruction(Instruction::new("nop", "", "")),
        Err("Attempted to add an instruction without first defining a symbol".to_string())
    );
    assert_eq!(disasm.add_symbol(Symbol::new("<s>")), Ok(()));
    assert_eq!(disasm.add_instruction(Instruction::new("nop", "", "")), Ok(()));
    assert_eq!(disasm.to_string(), "s:\n    <s>:\n        nop\n".to_string());
}

#[test]
fn process_lines_one_by_one() {
    let mut disasm = Disasm {
        file_name: String::new(),
        file_format: String::new(),
        sections: Vec::new(),
    };
    assert_eq!(
        disasm.process_first_line("no separator".to_string()),
        Err("Incorrect format for the first line".to_string())
    );
    assert_eq!(disasm.file_name, "");
    assert_eq!(disasm.process_first_line("x: file format y".to_string()), Ok(()));
    assert_eq!(disasm.file_name, "x");
    assert_eq!(disasm.file_format, "y");
    assert_eq!(
        disasm.process_other_line("Disassembly of section s:".to_string()),
        Ok(())
    );
    assert_eq!(disasm.process_other_line("<f>:".to_string()), Ok(()));
    assert_eq!(disasm.process_other_line("\tleave".to_string()), Ok(()));
    assert_eq!(
        disasm.process_other_line("leave".to_string()),
        Err("Unrecognized format for the following line: 'leave'".to_string())
    );
    assert_eq!(disasm.to_string(), "s:\n    <f>:\n        leave\n".to_string());
}
