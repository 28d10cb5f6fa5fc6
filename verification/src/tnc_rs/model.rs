use vstd::prelude::*;

verus! {

/// The boards a firmware image or a USB device can be identified as.
#[derive(Clone, Copy, Debug, PartialEq, Eq, Structural)]
pub enum Model {
    Generic,
    Teensy,
    TeensyPp10,
    Teensy20,
    TeensyPp20,
    Teensy30,
    Teensy31,
    TeensyLc,
    Teensy32,
    Teensy35,
    Teensy36,
    Teensy40Beta1,
    Teensy40,
    Teensy41,
    TeensyMicroMod,
}

/// Static description of a board model.
#[derive(Clone, Copy, Debug, PartialEq, Eq)]
pub struct ModelInfo {
    pub model: Model,
    pub priority: u8,
    pub name: &'static str,
    pub mcu: Option<&'static str>,
}

/// The human readable name of a model.
pub open spec fn model_name(m: Model) -> Seq<char> {
    match m {
        Model::Generic => "Generic"@,
        Model::Teensy => "Teensy"@,
        Model::TeensyPp10 => "Teensy++ 1.0"@,
        Model::Teensy20 => "Teensy 2.0"@,
        Model::TeensyPp20 => "Teensy++ 2.0"@,
        Model::Teensy30 => "Teensy 3.0"@,
        Model::Teensy31 => "Teensy 3.1"@,
        Model::TeensyLc => "Teensy LC"@,
        Model::Teensy32 => "Teensy 3.2"@,
        Model::Teensy35 => "Teensy 3.5"@,
        Model::Teensy36 => "Teensy 3.6"@,
        Model::Teensy40Beta1 => "Teensy 4.0 (beta 1)"@,
        Model::Teensy40 => "Teensy 4.0"@,
        Model::Teensy41 => "Teensy 4.1"@,
        Model::TeensyMicroMod => "Teensy MicroMod"@,
    }
}

/// The microcontroller of a model, where the model names a single one.
pub open spec fn model_mcu(m: Model) -> Option<Seq<char>> {
    match m {
        Model::Generic => None,
        Model::Teensy => None,
        Model::TeensyPp10 => Some("at90usb646"@),
        Model::Teensy20 => Some("atmega32u4"@),
        Model::TeensyPp20 => Some("at90usb1286"@),
        Model::Teensy30 => Some("mk20dx128"@),
        Model::Teensy31 => Some("mk20dx256"@),
        Model::TeensyLc => Some("mkl26z64"@),
        Model::Teensy32 => Some("mk20dx256"@),
        Model::Teensy35 => Some("mk64fx512"@),
        Model::Teensy36 => Some("mk66fx1m0"@),
        Model::Teensy40Beta1 => Some("imxrt_b1"@),
        Model::Teensy40 => Some("imxrt"@),
        Model::Teensy41 => Some("imxrt_t41"@),
        Model::TeensyMicroMod => Some("imxrt_mm"@),
    }
}

/// Generic models rank below every concrete board.
pub open spec fn model_priority(m: Model) -> u8 {
    if m == Model::Generic { 0 } else { 1 }
}

/// Whether a model description carries the given facts.
pub open spec fn describes(info: ModelInfo, m: Model) -> bool {
    &&& info.model == m
    &&& info.priority == model_priority(m)
    &&& info.name@ == model_name(m)
    &&& match model_mcu(m) {
        None => info.mcu.is_none(),
        Some(mcu) => info.mcu.is_some() && info.mcu.unwrap()@ == mcu,
    }
}

impl Model {
    /// The static description of this model.
    pub fn info(self) -> (info: ModelInfo)
        ensures
            describes(info, self),
    {
        let (priority, name, mcu): (u8, &'static str, Option<&'static str>) = match self {
            Model::Generic => (0, "Generic", None),
            Model::Teensy => (1, "Teensy", None),
            Model::TeensyPp10 => (1, "Teensy++ 1.0", Some("at90usb646")),
            Model::Teensy20 => (1, "Teensy 2.0", Some("atmega32u4")),
            Model::TeensyPp20 => (1, "Teensy++ 2.0", Some("at90usb1286")),
            Model::Teensy30 => (1, "Teensy 3.0", Some("mk20dx128")),
            Model::Teensy31 => (1, "Teensy 3.1", Some("mk20dx256")),
            Model::TeensyLc => (1, "Teensy LC", Some("mkl26z64")),
            Model::Teensy32 => (1, "Teensy 3.2", Some("mk20dx256")),
            Model::Teensy35 => (1, "Teensy 3.5", Some("mk64fx512")),
            Model::Teensy36 => (1, "Teensy 3.6", Some("mk66fx1m0")),
            Model::Teensy40Beta1 => (1, "Teensy 4.0 (beta 1)", Some("imxrt_b1")),
            Model::Teensy40 => (1, "Teensy 4.0", Some("imxrt")),
            Model::Teensy41 => (1, "Teensy 4.1", Some("imxrt_t41")),
            Model::TeensyMicroMod => (1, "Teensy MicroMod", Some("imxrt_mm")),
        };
        ModelInfo { model: self, priority, name, mcu }
    }
}

} // verus!
