use clargs::Parser;

#[test]
fn alias_test1() {
    let mut parser = Parser::new();

    parser.add_flag(String::from("flag"));
    parser.add_alias(String::from("f"), String::from("flag"));

    parser.add_named_param(String::from("quant"));
    parser.add_alias(String::from("q"), String::from("quant"));
    parser.add_alias(String::from("qua"), String::from("quant"));


    let args = ["", "-fq10"];
    let results = parser.parse(args.iter().map(|x| x.to_string()).collect()).ok().unwrap();
    assert!(results.flag("flag"));
    assert_eq!(results.named_param::<i32>("quant").unwrap().ok().unwrap(), 10);

    let args = ["", "--qua", "10"];
    let results = parser.parse(args.iter().map(|x| x.to_string()).collect()).ok().unwrap();
    assert_eq!(results.named_param::<i32>("quant").unwrap().ok().unwrap(), 10);

    let args = ["", "--qua=10"];
    let results = parser.parse(args.iter().map(|x| x.to_string()).collect()).ok().unwrap();
    assert_eq!(results.named_param::<i32>("quant").unwrap().ok().unwrap(), 10);
}

#[test]
#[should_panic]
fn alias_test2() {
    let mut parser = Parser::new();
    parser.add_flag(String::from("flag1"));
    parser.add_flag(String::from("flag2"));
    parser.try_add_alias(String::from("f"), String::from("flag1")).unwrap();
    parser.try_add_alias(String::from("f"), String::from("flag2")).unwrap();
}

#[test]
#[should_panic]
fn alias_test3() {
    let mut parser = Parser::new();
    parser.try_add_alias(String::from("f"), String::from("flag")).unwrap();
}
