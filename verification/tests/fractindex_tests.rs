use crsqlite::fractindex;

fn kb(a: Option<&[u8]>, b: Option<&[u8]>) -> Result<Option<Vec<u8>>, &'static str> {
    let av = a.map(|x| x.to_vec());
    let bv = b.map(|x| x.to_vec());
    fractindex::key_between(av.as_ref(), bv.as_ref(), None)
}

#[test]
fn validate_order_key() {
    // too small
    let smallest = b"A00000000000000000000000000".to_vec();
    assert_eq!(fractindex::validate_order_key(&smallest), Err("Key is too small"));

    assert_eq!(fractindex::validate_order_key(&b"a0".to_vec()), Ok(()));
    assert_eq!(fractindex::validate_order_key(&b"a1".to_vec()), Ok(()));
    assert_eq!(fractindex::validate_order_key(&b"a2".to_vec()), Ok(()));
    assert_eq!(fractindex::validate_order_key(&b"Zz".to_vec()), Ok(()));
    assert_eq!(fractindex::validate_order_key(&b"a1V".to_vec()), Ok(()));
}

#[test]
fn key_between() {
    fn test(a: Option<&[u8]>, b: Option<&[u8]>, exp: Result<Option<&[u8]>, &'static str>) {
        let got = kb(a, b);
        let want = exp.map(|o| o.map(|x| x.to_vec()));
        assert_eq!(got, want);
    }

    test(None, None, Ok(Some(b"a0")));
    test(None, Some(b"a0"), Ok(Some(b"Zz")));
    test(None, Some(b"Zz"), Ok(Some(b"Zy")));
    test(Some(b"a0"), None, Ok(Some(b"a1")));
    test(Some(b"a1"), None, Ok(Some(b"a2")));
    test(Some(b"a0"), Some(b"a1"), Ok(Some(b"a0V")));
    test(Some(b"a1"), Some(b"a2"), Ok(Some(b"a1V")));
    test(Some(b"a0V"), Some(b"a1"), Ok(Some(b"a0l")));
    test(Some(b"Zz"), Some(b"a0"), Ok(Some(b"ZzV")));
    test(Some(b"Zz"), Some(b"a1"), Ok(Some(b"a0")));
    test(None, Some(b"Y00"), Ok(Some(b"Xzzz")));
    test(Some(b"bzz"), None, Ok(Some(b"c000")));
    test(Some(b"a0"), Some(b"a0V"), Ok(Some(b"a0G")));
    test(Some(b"a0"), Some(b"a0G"), Ok(Some(b"a08")));
    test(Some(b"b125"), Some(b"b129"), Ok(Some(b"b127")));
    test(Some(b"a0"), Some(b"a1V"), Ok(Some(b"a1")));
    test(Some(b"Zz"), Some(b"a01"), Ok(Some(b"a0")));
    test(None, Some(b"a0V"), Ok(Some(b"a0")));
    test(None, Some(b"b999"), Ok(Some(b"b99")));
    test(None, Some(b"A00000000000000000000000000"), Err("Key is too small"));
    test(
        None,
        Some(b"A000000000000000000000000001"),
        Ok(Some(b"A000000000000000000000000000V")),
    );
    test(
        Some(b"zzzzzzzzzzzzzzzzzzzzzzzzzzy"),
        None,
        Ok(Some(b"zzzzzzzzzzzzzzzzzzzzzzzzzzz")),
    );
    test(
        Some(b"zzzzzzzzzzzzzzzzzzzzzzzzzzz"),
        None,
        Ok(Some(b"zzzzzzzzzzzzzzzzzzzzzzzzzzzV")),
    );
    test(Some(b"a00"), None, Err("Integer part should not end with 0"));
    test(Some(b"a00"), Some(b"a1"), Err("Integer part should not end with 0"));
    test(Some(b"0"), Some(b"1"), Err("head is out of range"));
    test(Some(b"a1"), Some(b"a0"), Err("key_between - a must be before b"));
}
