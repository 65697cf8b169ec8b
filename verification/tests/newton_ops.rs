use bigdecimal::BigDecimal;
use std::str::FromStr;
use num_bigint::BigInt;

fn dec(s: &str) -> BigDecimal {
    BigDecimal::from_str(s).unwrap()
}

#[test]
fn test_sqrt() {
    let vals = vec![
        ("1e-232", "1e-116"),
        ("1.00", "1"),
        ("1.001", "1.000499875062460964823258287700109753027590031219780479551442971840836093890879944856933288426795152"),
        ("100", "10"),
        ("49", "7"),
        (".25", ".5"),
        ("0.0152399025", ".12345"),
        ("152399025", "12345"),
        (".00400", "0.06324555320336758663997787088865437067439110278650433653715009705585188877278476442688496216758600590"),
        (".1", "0.3162277660168379331998893544432718533719555139325216826857504852792594438639238221344248108379300295"),
        ("2", "1.414213562373095048801688724209698078569671875376948073176679737990732478462107038850387534327641573"),
        ("125348", "354.0451948551201563108487193176101314241016013304294520812832530590100407318465590778759640828114535"),
        ("18446744073709551616.1099511", "4294967296.000000000012799992691725492477397918722952224079252026972356303360555051219312462698703293"),
        ("3.141592653589793115997963468544185161590576171875", "1.772453850905515992751519103139248439290428205003682302442979619028063165921408635567477284443197875"),
        (".000000000089793115997963468544185161590576171875", "0.000009475922962855041517561783740144225422359796851494316346796373337470068631250135521161989831460407155"),
        ("0.7177700109762963922745342343167413624881759290454997218753321040760896053150388903350654937434826216803814031987652326749140535150336357405672040727695124057298138872112244784753994931999476811850580200000000000000000000000000000000", "0.8472130847527653667042980517799020703921106560594525833177762276594388966885185567535692987624493813"),
        ("0.01234567901234567901234567901234567901234567901234567901234567901234567901234567901234567901234567901", "0.1111111111111111111111111111111111111111111111111111111111111111111111111111111111111111111111111111"),
        ("0.1108890000000000000000000000000000000000000000000000000000000000000000000000000000000000000000000444", "0.3330000000000000000000000000000000000000000000000000000000000000000000000000000000000000000000000667"),
    ];
    for &(x, y) in vals.iter() {
        let a = dec(x).sqrt().unwrap();
        let b = dec(y);
        assert_eq!(a, b);
    }
}

#[test]
fn test_sqrt_negative_is_none() {
    assert!(dec("-1").sqrt().is_none());
    assert!(dec("-0.001").sqrt().is_none());
}

#[test]
fn test_big_sqrt() {
    let vals = vec![
        (("2", -70), "141421356237309504880168872420969807.8569671875376948073176679737990732478462107038850387534327641573"),
        (("3", -170), "17320508075688772935274463415058723669428052538103806280558069794519330169088000370811.46186757248576"),
        (("9", -199), "9486832980505137995996680633298155601158665417975650480572514558377783315917714664032744325137900886"),
        (("7", -200), "26457513110645905905016157536392604257102591830824501803683344592010688232302836277603928864745436110"),
        (("777", -204), "2.787471972953270789531596912111625325974789615194854615319795902911796043681078997362635440358922503E+103"),
        (("7", -600), "2.645751311064590590501615753639260425710259183082450180368334459201068823230283627760392886474543611E+300"),
        (("2", -900), "1.414213562373095048801688724209698078569671875376948073176679737990732478462107038850387534327641573E+450"),
        (("7", -999), "8.366600265340755479781720257851874893928153692986721998111915430804187725943170098308147119649515362E+499"),
        (("74908163946345982392040522594123773796", -999), "2.736935584670307552030924971360722787091742391079630976117950955395149091570790266754718322365663909E+518"),
        (("20", -1024), "4.472135954999579392818347337462552470881236719223051448541794490821041851275609798828828816757564550E512"),
        (("3", 1025), "5.477225575051661134569697828008021339527446949979832542268944497324932771227227338008584361638706258E-513"),
    ];
    for &((s, scale), e) in vals.iter() {
        let expected = dec(e);
        let sqrt = BigDecimal::new(BigInt::from_str(s).unwrap(), scale).sqrt().unwrap();
        assert_eq!(sqrt, expected);
    }
}

#[test]
fn test_cbrt() {
    let vals = vec![
        ("0.00", "0"),
        ("1.00", "1"),
        ("1.001", "1.000333222283909495175449559955220102010284758197360454054345461242739715702641939155238095670636841"),
        ("10", "2.154434690031883721759293566519350495259344942192108582489235506346411106648340800185441503543243276"),
        ("-59283293e25", "-84006090355.84281237113712383191213626687332139035750444925827809487776780721673264524620270275301685"),
        ("94213372931e-127", "2.112049945275324414051072540210070583697242797173805198575907094646677475250362108901530353886613160E-39"),
    ];
    for &(x, y) in vals.iter() {
        let a = dec(x).cbrt().unwrap();
        let b = dec(y);
        assert_eq!(a, b);
    }
}

#[test]
fn test_inverse() {
    let vals = vec![
        ("100", "0.01"),
        ("2", "0.5"),
        (".2", "5"),
        ("3.141592653", "0.3183098862435492205742690218851870990799646487459493049686604293188738877535183744268834079171116523"),
    ];
    for &(x, y) in vals.iter() {
        let a = dec(x);
        let i = a.inverse().unwrap();
        let b = dec(y);
        assert_eq!(i, b);
        assert_eq!(BigDecimal::from_i64(1).unwrap().div(&a).unwrap(), b);
        assert_eq!(i.inverse().unwrap(), a);
    }
}

#[test]
fn test_exp() {
    let vals = vec![
        ("0", "1"),
        ("1", "2.718281828459045235360287471352662497757247093699959574966967627724076630353547594571382178525166427"),
        ("1.01", "2.745601015016916493989776316660387624073750819595962291667398087987297168243899027802501018008905180"),
        ("0.5", "1.648721270700128146848650787814163571653776100710148011575079311640661021194215608632776520056366643"),
        ("-1", "0.3678794411714423215955237701614608674458111310317678345078368016974614957448998033571472743459196437"),
        ("-0.01", "0.9900498337491680535739059771800365577720790812538374668838787452931477271687452950182155307793838110"),
        ("-10.04", "0.00004361977305405268676261569570537884674661515701779752139657120453194647205771372804663141467275928595"),
        ("-20.07", "1.921806899438469499721914055500607234723811054459447828795824348465763824284589956630853464778332349E-9"),
        ("10", "22026.46579480671651695790064528424436635351261855678107423542635522520281857079257519912096816452590"),
        ("20", "485165195.4097902779691068305415405586846389889448472543536108003159779961427097401659798506527473494"),
    ];
    for &(x, y) in vals.iter() {
        let a = dec(x).exp().unwrap();
        let b = dec(y);
        assert_eq!(a, b);
    }
}
