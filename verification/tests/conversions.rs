use bdd::{given, given_data, givenf, outline, Transcript, WhenContext};

#[test]
fn test_bdd_type_conversion_sync() {
    given("i have bike with 2 wheels", produce_bike, Transcript::new())
        .and("a car with 4 wheels", |bike| (bike, produce_car()))
        .when("i add transport wheels", |(bike, car)| Bike {
            wheels: bike.wheels + car.wheels,
        })
        .and("convert bike to car", |bike| Car {
            wheels: bike.wheels,
        })
        .then("i should have 6 wheels", |car| {
            assert_eq!(car.wheels, 6);
            car.wheels
        })
        .and("another 6 wheels", |wheels| {
            assert_eq!(wheels, 6);
        });
}

#[test]
fn test_bdd_type_conversion_async_within_sync() {
    let _never_driven = given(
        "i have bike with 2 wheels",
        produce_bike_async,
        Transcript::new(),
    )
    .and("a car with 4 wheels", |bike| move || (bike(), produce_car()))
    .when("i add transport wheels", |f| {
        move || {
            let (bike, car) = f();
            Bike {
                wheels: bike.wheels + car.wheels,
            }
        }
    })
    .and("convert bike to car", |bike| {
        move || Car {
            wheels: bike().wheels,
        }
    })
    .then("i should have 6 wheels", |car| {
        move || {
            let car = car();
            assert_eq!(car.wheels, 6);
            car.wheels
        }
    })
    .and("another 6 wheels", |wheels| {
        move || {
            assert_eq!(wheels(), 6);
        }
    });
}

#[test]
fn test_bdd_type_conversion_async() {
    let setup = givenf(
        "i have bike with 2 wheels",
        produce_bike_async,
        Transcript::new(),
    )
    .drive()
    .andf("a car with 4 wheels", |bike| move || (bike, produce_car()))
    .drive();
    let action = setup.whenf("i add transport wheels", |(bike, car)| {
        move || Bike {
            wheels: bike.wheels + car.wheels,
        }
    })
    .drive();
    let action = action.andf("convert bike to car", |bike| {
        move || Car {
            wheels: bike.wheels,
        }
    })
    .drive();
    let outcome = action.thenf("i should have 6 wheels", |car| {
        move || {
            assert_eq!(car.wheels, 6);
            car.wheels
        }
    })
    .drive();
    outcome.andf("another 6 wheels", |wheels| {
        move || {
            assert_eq!(wheels, 6);
        }
    })
    .drive();
}

#[test]
fn test_bdd_type_conversion_one_await() {
    givenf(
        "i have bike with 2 wheels",
        produce_bike_async,
        Transcript::new(),
    )
    .andf("a car with 4 wheels", |bike| move || (bike, produce_car()))
    .whenf("i add transport wheels", |(bike, car)| {
        move || Bike {
            wheels: bike.wheels + car.wheels,
        }
    })
    .andf("convert bike to car", |bike| {
        move || Car {
            wheels: bike.wheels,
        }
    })
    .thenf("i should have 6 wheels", |car| {
        move || {
            assert_eq!(car.wheels, 6);
            car.wheels
        }
    })
    .and("another 6 wheels", |wheels| {
        move || {
            assert_eq!(wheels, 6);
        }
    })
    .drive();
}

#[test]
fn test_bdd_type_conversion_sync_async_chain() {
    givenf(
        "i have bike with 2 wheels",
        produce_bike_async,
        Transcript::new(),
    )
    .and("a car with 4 wheels", |bike| (bike, produce_car()))
    .when("i add transport wheels", |(bike, car)| Bike {
        wheels: bike.wheels + car.wheels,
    })
    .and("convert bike to car", |bike| Car {
        wheels: bike.wheels,
    })
    .thenf("i should have 6 wheels", |car| {
        move || {
            assert_eq!(car.wheels, 6);
            car.wheels
        }
    })
    .and("another 6 wheels", |wheels| {
        assert_eq!(wheels, 6);
    })
    .drive();
}

#[test]
fn test_bdd_outline() {
    let data = vec![
        (Car { wheels: 2 }, Bike { wheels: 2 }),
        (Car { wheels: 4 }, Bike { wheels: 2 }),
    ];
    let expectations = [4, 6];
    let run = outline(
        &format!("{size} cars {size} bikes", size = data.len()),
        data,
        Transcript::new(),
    )
    .mapf(|data, index| {
        move || {
            given_data(
                &format!(
                    "i have bike with {bike_wheels} wheels and a car with {car_wheels}",
                    car_wheels = data.0.wheels,
                    bike_wheels = data.1.wheels
                ),
                data,
                Transcript::new(),
            )
            .whenf("i add transport wheels", |(bike, car)| {
                move || Bike {
                    wheels: bike.wheels + car.wheels,
                }
            })
            .drive()
            .and("convert bike to car", |bike| Car {
                wheels: bike.wheels,
            })
            .then(
                &format!(
                    "i should have {expected} wheels",
                    expected = expectations[index]
                ),
                |car| {
                    assert_eq!(car.wheels, expectations[index]);
                    car.wheels
                },
            )
            .and(
                &format!("another {expected} wheels", expected = expectations[index]),
                |wheels| {
                    assert_eq!(wheels, expectations[index]);
                },
            );
        }
    });
    run.drive();
}

#[test]
fn test_bdd_outline_as_loop() {
    let data = vec![
        (Car { wheels: 2 }, Bike { wheels: 2 }, 4),
        (Car { wheels: 4 }, Bike { wheels: 2 }, 6),
    ];
    for (car, bike, expected) in data {
        given_data("i have bike and a car", (car, bike), Transcript::new())
            .whenf("i add transport wheels", |(bike, car)| {
                move || Bike {
                    wheels: bike.wheels + car.wheels,
                }
            })
            .drive()
            .and("convert bike to car", |bike| Car {
                wheels: bike.wheels,
            })
            .then("i should have correct wheels", |car| {
                assert_eq!(car.wheels, expected);
                car.wheels
            })
            .and("another 6 wheels", |wheels| {
                assert_eq!(wheels, expected);
            });
    }
}

#[test]
fn test_bdd_functions() {
    let expected = 6;
    let spare = 2;
    given("i have bike", produce_bike, Transcript::new())
        .and(&format!("spare {spare} wheels"), |bike| (bike, spare))
        .when("i add spare wheels", |(bike, spare)| bike.add_wheels(spare))
        .and("two more from the basement", |bike| bike.add_wheels(2))
        .then(
            &format!("i should have {expected} wheels"),
            check_wheels(expected),
        );
}

#[test]
fn test_multiple_context1() {
    let expected = 8;
    given_some_context()
        .and("two more from the store", |bike| bike.add_wheels(2))
        .then(
            &format!("i should have {expected} wheels"),
            check_wheels(expected),
        );
}

#[test]
fn test_multiple_context2() {
    let expected = 8;
    given_some_context()
        .and("two more from the garage", |bike| bike.add_wheels(2))
        .then(
            &format!("i should have {expected} wheels"),
            check_wheels(expected),
        );
}

struct Bike {
    wheels: u8,
}

impl Bike {
    fn add_wheels(mut self, spare: u8) -> Self {
        self.wheels += spare;
        self
    }
}
struct Car {
    wheels: u8,
}

fn produce_bike() -> Bike {
    Bike { wheels: 2 }
}

fn produce_bike_async() -> impl FnOnce() -> Bike {
    produce_bike
}

fn produce_car() -> Car {
    Car { wheels: 4 }
}

fn given_some_context() -> WhenContext<Bike, Transcript> {
    given("i have bike", produce_bike, Transcript::new())
        .and("spare two wheels", |bike| (bike, 2))
        .when("i add spare wheels", |(bike, spare)| bike.add_wheels(spare))
        .and("two more from the basement", |bike| bike.add_wheels(2))
}

fn check_wheels(wheels: u8) -> impl Fn(Bike) {
    move |bike| assert_eq!(bike.wheels, wheels)
}
