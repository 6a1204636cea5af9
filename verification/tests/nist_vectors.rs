use gcm_mode::encrypt;

#[test]
fn test_case_16() {

    let k = b"\xfe\xff\xe9\x92\x86es\x1cmj\x8f\x94g0\x83\x08\xfe\xff\xe9\x92\x86es\x1cmj\x8f\x94g0\x83\x08";
    let p = b"\xd912%\xf8\x84\x06\xe5\xa5Y\t\xc5\xaf\xf5&\x9a\x86\xa7\xa9S\x154\xf7\xda.L0=\x8a1\x8ar\x1c<\x0c\x95\x95h\tS/\xcf\x0e$I\xa6\xb5%\xb1j\xed\xf5\xaa\r\xe6W\xbac{9";
    let a = b"\xfe\xed\xfa\xce\xde\xad\xbe\xef\xfe\xed\xfa\xce\xde\xad\xbe\xef\xab\xad\xda\xd2";
    let iv = b"\xca\xfe\xba\xbe\xfa\xce\xdb\xad\xde\xca\xf8\x88";

    let (c, t) = encrypt(p, k, iv, a);

    let c_expect = b"R-\xc1\xf0\x99V}\x07\xf4\x7f7\xa3*\x84B}d:\x8c\xdc\xbf\xe5\xc0\xc9u\x98\xa2\xbd%U\xd1\xaa\x8c\xb0\x8eHY\r\xbb=\xa7\xb0\x8b\x10V\x82\x888\xc5\xf6\x1ec\x93\xbaz\n\xbc\xc9\xf6b";
    let t_expect = b"v\xfcn\xce\x0fN\x17h\xcd\xdf\x88S\xbb-U\x1b";


    println!("{:x}", u128::from_be_bytes(t));
    assert_eq!(c, c_expect);
    assert_eq!(&t, t_expect);
}

#[test]
fn test_case_17() {

    let k = b"\xfe\xff\xe9\x92\x86es\x1cmj\x8f\x94g0\x83\x08\xfe\xff\xe9\x92\x86es\x1cmj\x8f\x94g0\x83\x08";
    let p = b"\xd912%\xf8\x84\x06\xe5\xa5Y\t\xc5\xaf\xf5&\x9a\x86\xa7\xa9S\x154\xf7\xda.L0=\x8a1\x8ar\x1c<\x0c\x95\x95h\tS/\xcf\x0e$I\xa6\xb5%\xb1j\xed\xf5\xaa\r\xe6W\xbac{9";
    let a = b"\xfe\xed\xfa\xce\xde\xad\xbe\xef\xfe\xed\xfa\xce\xde\xad\xbe\xef\xab\xad\xda\xd2";
    let iv = b"\xca\xfe\xba\xbe\xfa\xce\xdb\xad";

    let (c, t) = encrypt(p, k, iv, a);

    let c_expect = b"\xc3v-\xf1\xcax}2\xaeG\xc1;\xf1\x98D\xcb\xaf\x1a\xe1M\x0b\x97j\xfa\xc5/\xf7\xd7\x9b\xba\x9d\xe0\xfe\xb5\x82\xd394\xa4\xf0\x95L\xc26;\xc7?xb\xacC\x0ed\xab\xe4\x99\xf4|\x9b\x1f";
    let t_expect = b":3}\xbfF\xa7\x92\xc4^EI\x13\xfe.\xa8\xf2";

    println!("{:x}", u128::from_be_bytes(t));
    assert_eq!(c, c_expect);
    assert_eq!(&t, t_expect);
}

#[test]
fn test_case_18() {

    let k = b"\xfe\xff\xe9\x92\x86es\x1cmj\x8f\x94g0\x83\x08\xfe\xff\xe9\x92\x86es\x1cmj\x8f\x94g0\x83\x08";
    let p = b"\xd912%\xf8\x84\x06\xe5\xa5Y\t\xc5\xaf\xf5&\x9a\x86\xa7\xa9S\x154\xf7\xda.L0=\x8a1\x8ar\x1c<\x0c\x95\x95h\tS/\xcf\x0e$I\xa6\xb5%\xb1j\xed\xf5\xaa\r\xe6W\xbac{9";
    let a = b"\xfe\xed\xfa\xce\xde\xad\xbe\xef\xfe\xed\xfa\xce\xde\xad\xbe\xef\xab\xad\xda\xd2";
    let iv = b"\x93\x13\x22]\xf8\x84\x06\xe5U\x90\x9cZ\xffRi\xaajz\x958SO}\xa1\xe4\xc3\x03\xd2\xa3\x18\xa7(\xc3\xc0\xc9QV\x80\x959\xfc\xf0\xe2B\x9akRT\x16\xae\xdb\xf5\xa0\xdejW\xa67\xb3\x9b";


    let (c, t) = encrypt(p, k, iv, a);

    let c_expect = b"Z\x8d\xef/\x0c\x9eS\xf1\xf7]xSe\x9e* \xee\xb2\xb2*\xaf\xded\x19\xa0X\xabOotk\xf4\x0f\xc0\xc3\xb7\x80\xf2DE-\xa3\xeb\xf1\xc5\xd8,\xde\xa2A\x89\x97 \x0e\xf8.D\xae~?";
    let t_expect = b"\xa4J\x82f\xee\x1c\x8e\xb0\xc8\xb5\xd4\xcfZ\xe9\xf1\x9a";

    println!("{:x}", u128::from_be_bytes(t));
    assert_eq!(c, c_expect);
    assert_eq!(&t, t_expect);
}
