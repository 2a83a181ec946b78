use symstate::bv::BitVec;
use symstate::error::Error;
use symstate::ir::Type;
use symstate::layout::{get_offset_bv_index, get_offset_constant_index, size, size_of_fields};
use symstate::memory::fold_from_first;
use symstate::solver::Facade;
use symstate::solver::new_context;

fn integer(bits: u32) -> Type {
    Type::Integer { bits }
}

fn array(element: Type, num_elements: usize) -> Type {
    Type::Array {
        element: Box::new(element),
        num_elements,
    }
}

fn fields() -> Vec<Type> {
    vec![integer(8), integer(32), array(integer(16), 3), integer(1)]
}

#[test]
fn sizes_of_types() {
    assert_eq!(size(&integer(1)), Some(1));
    assert_eq!(size(&integer(64)), Some(64));
    assert_eq!(
        size(&Type::Pointer {
            pointee: Box::new(Type::Other)
        }),
        Some(64)
    );
    assert_eq!(size(&array(integer(16), 3)), Some(48));
    assert_eq!(size(&array(integer(16), 0)), Some(0));
    assert_eq!(
        size(&Type::Vector {
            element: Box::new(integer(8)),
            num_elements: 4
        }),
        Some(32)
    );
    let s = Type::Struct {
        elements: fields(),
        is_packed: false,
    };
    assert_eq!(size(&s), Some(8 + 32 + 48 + 1));
    assert_eq!(
        size(&Type::NamedStruct {
            name: "s".to_owned(),
            ty: Some(Box::new(s))
        }),
        Some(89)
    );
    assert_eq!(
        size(&Type::NamedStruct {
            name: "s".to_owned(),
            ty: None
        }),
        None
    );
    assert_eq!(size(&Type::Void), None);
    assert_eq!(size(&Type::Other), None);
    assert_eq!(size(&array(Type::Other, 2)), None);
    assert_eq!(size(&array(integer(64), usize::MAX)), None);
    assert_eq!(size_of_fields(&fields(), 0), Some(0));
    assert_eq!(size_of_fields(&fields(), 2), Some(40));
    assert_eq!(size_of_fields(&vec![integer(8), Type::Other], 1), Some(8));
    assert_eq!(size_of_fields(&vec![integer(8), Type::Other], 2), None);
}

#[test]
fn offsets_at_constant_indices() {
    let s = Type::Struct {
        elements: fields(),
        is_packed: false,
    };
    assert_eq!(
        get_offset_constant_index(&s, 0),
        Ok((0, &integer(8)))
    );
    assert_eq!(
        get_offset_constant_index(&s, 2),
        Ok((5, &array(integer(16), 3)))
    );
    assert_eq!(
        get_offset_constant_index(&s, 3),
        Ok((11, &integer(1)))
    );
    assert!(matches!(
        get_offset_constant_index(&s, 4),
        Err(Error::MalformedInstruction(_))
    ));
    let arr = array(integer(32), 2);
    assert_eq!(
        get_offset_constant_index(&arr, 5),
        Ok((20, &integer(32)))
    );
    let named = Type::NamedStruct {
        name: "s".to_owned(),
        ty: Some(Box::new(s)),
    };
    assert_eq!(
        get_offset_constant_index(&named, 1),
        Ok((1, &integer(32)))
    );
    // a field that starts within a byte
    let bits = Type::Struct {
        elements: vec![integer(1), integer(8)],
        is_packed: true,
    };
    assert!(matches!(
        get_offset_constant_index(&bits, 1),
        Err(Error::MalformedInstruction(_))
    ));
    assert!(matches!(
        get_offset_constant_index(&array(integer(4), 2), 1),
        Err(Error::MalformedInstruction(_))
    ));
    assert!(matches!(
        get_offset_constant_index(&integer(8), 0),
        Err(Error::MalformedInstruction(_))
    ));
    assert!(matches!(
        get_offset_constant_index(&array(integer(64), 2), usize::MAX),
        Err(Error::MalformedInstruction(_))
    ));
}

#[test]
fn offsets_at_symbolic_indices() {
    let ctx = new_context();
    let mut solver = Facade::new(&ctx);
    let index = BitVec::new(&ctx, "i", 64);
    solver.assert_bv(&index._eq(&BitVec::from_u64(&ctx, 3, 64)));
    let arr = array(integer(32), 10);
    let (offset, element) = get_offset_bv_index(&arr, &index).unwrap();
    assert_eq!(element, &integer(32));
    assert_eq!(offset.get_width(), 64);
    assert_eq!(solver.max_possible_solution_for_bv(&offset), Ok(Some(12)));
    assert_eq!(solver.min_possible_solution_for_bv(&offset), Ok(Some(12)));
    let s = Type::Struct {
        elements: fields(),
        is_packed: false,
    };
    assert!(matches!(
        get_offset_bv_index(&s, &index),
        Err(Error::MalformedInstruction(_))
    ));
    assert!(matches!(
        get_offset_bv_index(&array(integer(1), 8), &index),
        Err(Error::MalformedInstruction(_))
    ));
}

#[test]
fn folding_starts_with_the_first_item() {
    assert_eq!(fold_from_first(vec![7], |a: u64, b: u64| a * 10 + b), 7);
    assert_eq!(
        fold_from_first(vec![1, 2, 3, 4], |a: u64, b: u64| a * 10 + b),
        1234
    );
    assert_eq!(
        fold_from_first(
            vec!["a".to_owned(), "b".to_owned(), "c".to_owned()],
            |a: String, b: String| b + &a
        ),
        "cba"
    );
}
