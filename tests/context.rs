use hecs_schedule::{Access, Context, ErasedCell, Error};

#[test]
fn context_lookup_and_borrows() {
    let ctx = Context::new(vec![
        ErasedCell::new(30, 64),
        ErasedCell::new(10, 7),
        ErasedCell::new(20, 9),
    ]);
    let a = ctx.borrow_shared(Access::shared(30, "i32")).ok().unwrap();
    assert_eq!(*a, 64);
    {
        let mut b = ctx.borrow_unique(Access::unique(20, "u8")).ok().unwrap();
        *b = 11;
        assert!(matches!(ctx.borrow_shared(Access::shared(20, "u8")), Err(Error::Borrow("u8"))));
        assert!(matches!(ctx.borrow_unique(Access::unique(20, "u8")), Err(Error::BorrowMut("u8"))));
    }
    assert_eq!(*ctx.borrow_shared(Access::shared(20, "u8")).ok().unwrap(), 11);
    assert!(matches!(ctx.borrow_unique(Access::unique(30, "i32")), Err(Error::BorrowMut("i32"))));
    let again = ctx.borrow_shared(Access::shared(30, "i32")).ok().unwrap();
    assert_eq!(*again, 64);
    assert!(matches!(ctx.borrow_shared(Access::shared(40, "f32")), Err(Error::MissingData("f32"))));
    assert!(matches!(ctx.cell(Access::shared(5, "bool")), Err(Error::MissingData("bool"))));
    assert!(ctx.cell(Access::shared(10, "u16")).is_ok());
}

#[test]
fn context_optional_borrows() {
    let ctx = Context::new(vec![ErasedCell::new(2, String::from("Hello, World"))]);
    assert!(matches!(ctx.maybe_shared(Access::shared(3, "f32")), Ok(None)));
    assert!(matches!(ctx.maybe_unique(Access::unique(3, "f32")), Ok(None)));
    {
        let mut w = ctx.maybe_unique(Access::unique(2, "String")).ok().unwrap().unwrap();
        w.push_str("!");
        assert!(matches!(ctx.maybe_shared(Access::shared(2, "String")), Err(Error::Borrow("String"))));
    }
    let r = ctx.maybe_shared(Access::shared(2, "String")).ok().unwrap().unwrap();
    assert_eq!(r.as_str(), "Hello, World!");
}

#[test]
fn context_many_entries() {
    let mut cells = Vec::new();
    for i in (0..50u64).rev() {
        cells.push(ErasedCell::new(i * 3, i));
    }
    let ctx = Context::new(cells);
    for i in 0..50u64 {
        assert_eq!(*ctx.borrow_shared(Access::shared(i * 3, "u64")).ok().unwrap(), i);
        assert!(ctx.cell(Access::shared(i * 3 + 1, "u64")).is_err());
    }
    let empty: Context<u8> = Context::new(Vec::new());
    assert!(empty.cell(Access::shared(0, "u8")).is_err());
}
